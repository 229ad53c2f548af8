//! The proxy's part in applying raft commands and snapshots: it forwards them to the engine
//! store, and lets regions that are added the fast way pass their first snapshot.

use vstd::prelude::*;

use crate::cached_region;
use crate::cached_region::{CachedRegionInfo, CachedRegionManager};
use crate::command;
use crate::command::{
    AdminPlan, ApplyCtxInfo, Cmd, PreExecAdmin, QueryPlan, RaftCmdRequest, RegionState,
    SstMetaInfo,
};
use crate::ffi::{EngineStoreApplyRes, RaftCmdHeader};
use crate::messages::{AdminCmdType, AdminRequest, Region};
use crate::snapshot;
use crate::snapshot::{
    PreHandleRequest, PrehandleContext, PrehandleTask, SnapKey, Snapshot,
};

verus! {

/// What happened to a region.
#[derive(Clone, Copy, Debug, PartialEq, Eq, Structural)]
pub enum RegionChangeEvent {
    Create,
    Update,
    UpdateBuckets,
    Destroy,
}

/// How far two sides of a region can be read consistently.
#[derive(Clone, Copy, Debug, PartialEq, Eq, Structural)]
pub struct SafeTsUpdate {
    pub region_id: u64,
    pub self_safe_ts: u64,
    pub leader_safe_ts: u64,
}

/// What comes next once a snapshot was applied by raft.
pub enum PostApply {
    /// Nothing is left to do.
    Finished,
    /// The snapshot is being handled in the background; its result has to be waited for.
    AwaitTask(PrehandleTask),
    /// The snapshot has to be handled now, and the result applied.
    PreHandle(PreHandleRequest),
}

/// What comes next once the background has answered.
pub enum Prehandled {
    /// The result has to be applied.
    Apply(usize),
    /// There is no result: the snapshot has to be handled now, and the result applied.
    PreHandle(PreHandleRequest),
}

/// Forwards what raft does to the engine store.
pub struct ProxyForwarder {
    pub store_id: u64,
    pub enable_fast_add_peer: bool,
    pub cached: CachedRegionManager,
    pub pre_handle_snapshot_ctx: PrehandleContext,
    /// Whether snapshots can be handled in the background.
    pub apply_snap_pool: bool,
    /// How many snapshots the background has taken on and not been asked for.
    pub pending_applies_count: isize,
    pub pending_delete_ssts: Vec<SstMetaInfo>,
}

#[verifier::ext_equal]
pub struct ProxyForwarderView {
    pub store_id: u64,
    pub enable_fast_add_peer: bool,
    pub cached: Map<u64, CachedRegionInfo>,
    pub tracer: Map<SnapKey, PrehandleTask>,
    pub apply_snap_pool: bool,
    pub pending_applies_count: isize,
    pub pending_delete_ssts: Seq<SstMetaInfo>,
}

impl View for ProxyForwarder {
    type V = ProxyForwarderView;

    open spec fn view(&self) -> ProxyForwarderView {
        ProxyForwarderView {
            store_id: self.store_id,
            enable_fast_add_peer: self.enable_fast_add_peer,
            cached: self.cached@,
            tracer: self.pre_handle_snapshot_ctx@,
            apply_snap_pool: self.apply_snap_pool,
            pending_applies_count: self.pending_applies_count,
            pending_delete_ssts: self.pending_delete_ssts@,
        }
    }
}

impl ProxyForwarderView {
    /// Whether the next snapshot of a region is its first one on the fast way.
    pub open spec fn first_snapshot(self, region_id: u64) -> bool {
        &&& self.enable_fast_add_peer
        &&& self.cached.contains_key(region_id)
        &&& !self.cached[region_id].inited
    }

    /// The region has passed its first snapshot.
    pub open spec fn first_snapshot_passed(self, region_id: u64) -> ProxyForwarderView {
        ProxyForwarderView {
            cached: self.cached.insert(
                region_id,
                CachedRegionInfo {
                    inited: true,
                    snapshot_inflight: 0,
                    fast_add_peer_start: 0,
                    ..self.cached[region_id]
                },
            ),
            ..self
        }
    }
}

/// What is remembered of a region once its peer was created.
pub open spec fn after_role_change(
    info: Option<CachedRegionInfo>,
    is_replicated: bool,
) -> Option<CachedRegionInfo> {
    if is_replicated {
        Some(
            CachedRegionInfo {
                replicated_or_created: true,
                ..match info {
                    Some(x) => x,
                    None => CachedRegionInfo::spec_default(),
                }
            },
        )
    } else {
        info
    }
}

impl ProxyForwarder {
    /// A forwarder that has seen nothing.
    pub fn new(store_id: u64, enable_fast_add_peer: bool, apply_snap_pool: bool) -> (r: Self)
        ensures
            r@ == (ProxyForwarderView {
                store_id,
                enable_fast_add_peer,
                cached: Map::empty(),
                tracer: Map::empty(),
                apply_snap_pool,
                pending_applies_count: 0,
                pending_delete_ssts: Seq::empty(),
            }),
    {
        ProxyForwarder {
            store_id,
            enable_fast_add_peer,
            cached: CachedRegionManager::new(),
            pre_handle_snapshot_ctx: PrehandleContext::new(),
            apply_snap_pool,
            pending_applies_count: 0,
            pending_delete_ssts: Vec::new(),
        }
    }

    /// What has to happen before an administrative command of a region is executed.
    pub fn pre_exec_admin(
        &self,
        ob_region: &Region,
        req: &AdminRequest,
        index: u64,
        term: u64,
    ) -> (r: PreExecAdmin)
        ensures
            r == command::before_admin(ob_region.id, req.cmd_type, index, term),
    {
        command::pre_exec_admin(ob_region.id, req.cmd_type, index, term)
    }

    /// What is handed to the engine store after an administrative command.
    pub fn post_exec_admin(&self, ob_region: &Region, cmd: &Cmd, region_state: &RegionState) -> (r:
        AdminPlan)
        requires
            !cmd.response.has_error && command::is_merge(cmd.request.admin_type())
                ==> region_state.modified_region is Some,
        ensures
            command::is_admin_plan(r, ob_region@.id, *cmd, *region_state),
    {
        command::plan_admin(ob_region.id, cmd, region_state)
    }

    /// Whether the region's state is made durable, given the engine store's answer to what
    /// `post_exec_admin` handed over.
    pub fn post_exec_admin_done(
        &self,
        plan: &AdminPlan,
        res: EngineStoreApplyRes,
        region_state: &RegionState,
    ) -> (r: bool)
        ensures
            r == (match *plan {
                AdminPlan::Failed { .. } => res == EngineStoreApplyRes::Persist
                    && !region_state.pending_remove,
                AdminPlan::Admin { .. } => res != EngineStoreApplyRes::NoPersist
                    && !region_state.pending_remove,
            }),
    {
        match plan {
            AdminPlan::Failed { .. } => command::write_persists(res, region_state),
            AdminPlan::Admin { .. } => command::admin_persists(res, region_state),
        }
    }

    /// What is handed to the engine store, without any writes, for an empty command.
    pub fn on_empty_cmd(&self, ob_region: &Region, index: u64, term: u64) -> (r: RaftCmdHeader)
        ensures
            r == (RaftCmdHeader { region_id: ob_region@.id, index, term }),
    {
        RaftCmdHeader::new(ob_region.id, index, term)
    }

    /// What is handed to the engine store after a write command.
    pub fn post_exec_query<'a>(&self, ob_region: &Region, cmd: &'a Cmd) -> (r: QueryPlan<'a>)
        requires
            cmd.response.has_error || command::requests_fit(cmd.request.requests@),
        ensures
            command::is_query_plan(r, ob_region@.id, *cmd),
    {
        command::plan_query(ob_region.id, cmd)
    }

    /// Does what the engine store's answer to what `post_exec_query` handed over calls for,
    /// and says whether the region's state is made durable.
    pub fn post_exec_query_done(
        &mut self,
        ob_region: &Region,
        plan: &QueryPlan,
        res: EngineStoreApplyRes,
        region_state: &RegionState,
        apply_ctx_info: &mut ApplyCtxInfo,
    ) -> (r: bool)
        ensures
            match *plan {
                QueryPlan::Write { .. } => {
                    &&& r == (res == EngineStoreApplyRes::Persist && !region_state.pending_remove)
                    &&& final(self)@ == old(self)@
                    &&& *final(apply_ctx_info) == *old(apply_ctx_info)
                },
                QueryPlan::Ingest { .. } => {
                    &&& r == (res != EngineStoreApplyRes::NoPersist && !region_state.pending_remove)
                    &&& final(self)@ == (ProxyForwarderView {
                        pending_delete_ssts: final(self)@.pending_delete_ssts,
                        ..old(self)@
                    })
                    &&& command::ingest_finished(
                        old(self)@.pending_delete_ssts,
                        final(self)@.pending_delete_ssts,
                        *old(apply_ctx_info),
                        *final(apply_ctx_info),
                        ob_region@.id,
                        res,
                    )
                },
            },
    {
        match plan {
            QueryPlan::Write { .. } => command::write_persists(res, region_state),
            QueryPlan::Ingest { .. } => command::finish_ingest(
                &mut self.pending_delete_ssts,
                apply_ctx_info,
                ob_region.id,
                res,
                region_state,
            ),
        }
    }

    /// What is handed to the engine store when consistent reads move on.
    pub fn on_update_safe_ts(&self, region_id: u64, self_safe_ts: u64, leader_safe_ts: u64) -> (r:
        SafeTsUpdate)
        ensures
            r == (SafeTsUpdate { region_id, self_safe_ts, leader_safe_ts }),
    {
        SafeTsUpdate { region_id, self_safe_ts, leader_safe_ts }
    }

    /// Says which region the engine store has to forget, if any; on the fast way what is
    /// remembered of it is forgotten too.
    pub fn on_region_changed(&mut self, ob_region: &Region, e: RegionChangeEvent) -> (r: Option<
        u64,
    >)
        ensures
            r == (if e == RegionChangeEvent::Destroy {
                Some(ob_region@.id)
            } else {
                None
            }),
            final(self)@ == (if e == RegionChangeEvent::Destroy && old(self)@.enable_fast_add_peer {
                ProxyForwarderView {
                    cached: old(self)@.cached.remove(ob_region@.id),
                    ..old(self)@
                }
            } else {
                old(self)@
            }),
    {
        if e == RegionChangeEvent::Destroy {
            if self.enable_fast_add_peer {
                self.cached.remove_cached_region_info(ob_region.id);
            }
            Some(ob_region.id)
        } else {
            None
        }
    }

    /// Whether the state of a region may be made durable now.
    pub fn pre_persist(&self, is_finished: bool, cmd: Option<&RaftCmdRequest>) -> (r: bool)
        requires
            is_finished || cmd is Some,
        ensures
            r == (is_finished || cmd->0.admin_type() == AdminCmdType::CommitMerge
                || cmd->0.admin_type() == AdminCmdType::RollbackMerge),
    {
        command::pre_persist(is_finished, cmd)
    }

    /// Whether the apply state is written with each command: it is not.
    pub fn pre_write_apply_state(&self) -> (r: bool)
        ensures
            !r,
    {
        false
    }

    /// Whether raft gets a message, given whether the fast way took it.
    pub fn on_raft_message(&self, maybe_fast_path: bool) -> (r: bool)
        ensures
            r == !maybe_fast_path,
    {
        !maybe_fast_path
    }

    /// Remembers that a region's peer was created by replication, which is so where it is not
    /// initialized yet.
    pub fn on_role_change(&mut self, ob_region: &Region, initialized: bool)
        ensures
            final(self)@ == (ProxyForwarderView {
                cached: cached_region::with_info(
                    old(self)@.cached,
                    ob_region@.id,
                    after_role_change(
                        cached_region::info_of(old(self)@.cached, ob_region@.id),
                        !initialized,
                    ),
                ),
                ..old(self)@
            }),
    {
        let is_replicated = !initialized;
        let f = |info: Option<CachedRegionInfo>| -> (r: Option<CachedRegionInfo>)
            ensures
                r == after_role_change(info, is_replicated),
            {
                if is_replicated {
                    let base = match info {
                        Some(x) => x,
                        None => CachedRegionInfo::default(),
                    };
                    Some(CachedRegionInfo { replicated_or_created: true, ..base })
                } else {
                    info
                }
            };
        let _ = self.cached.access_cached_region_info_mut(ob_region.id, f);
    }

    /// Starts to handle a snapshot in the background, where there is a snapshot and a
    /// background, and unless it is the first one of a region on the fast way.
    pub fn pre_apply_snapshot(
        &mut self,
        ob_region: &Region,
        peer_id: u64,
        snap_key: &SnapKey,
        snap: Option<&Snapshot>,
        recv: u64,
    ) -> (r: Option<PreHandleRequest>)
        requires
            snap is Some && !old(self)@.first_snapshot(ob_region@.id) && old(self)@.apply_snap_pool
                ==> snapshot::snapshot_fits(snap->0.cf_files@),
        ensures
            ({
                let s = old(self)@;
                if snap is Some && !s.first_snapshot(ob_region@.id) && s.apply_snap_pool {
                    &&& r is Some
                    &&& r->0@ == snapshot::request_for(
                        ob_region@,
                        peer_id,
                        *snap_key,
                        snap->0.cf_files@,
                    )
                    &&& final(self)@ == (ProxyForwarderView {
                        tracer: s.tracer.insert(*snap_key, (PrehandleTask { recv, peer_id })),
                        pending_applies_count: s.pending_applies_count.wrapping_add(1),
                        ..s
                    })
                } else {
                    &&& r is None
                    &&& final(self)@ == s
                }
            }),
    {
        let snap = match snap {
            None => return None,
            Some(s) => s,
        };
        if self.is_first_snapshot(ob_region.id) || !self.apply_snap_pool {
            return None;
        }
        let task = PrehandleTask::new(recv, peer_id);
        self.pre_handle_snapshot_ctx.insert(*snap_key, task);
        self.pending_applies_count = self.pending_applies_count.wrapping_add(1);
        let ssts = snapshot::retrieve_sst_files(snap);
        Some(snapshot::pre_handle_snapshot_impl(task.peer_id, ssts, ob_region, snap_key))
    }

    /// Whether the next snapshot of a region is its first one on the fast way.
    pub fn is_first_snapshot(&self, region_id: u64) -> (r: bool)
        ensures
            r == self@.first_snapshot(region_id),
    {
        if self.enable_fast_add_peer {
            match self.cached.get_cached_region_info(region_id) {
                Some(info) => !info.inited,
                None => false,
            }
        } else {
            false
        }
    }

    /// Goes on with a snapshot that raft has applied. The first snapshot of a region on the
    /// fast way is not handed to the engine store, which has the data already.
    pub fn post_apply_snapshot(
        &mut self,
        ob_region: &Region,
        peer_id: u64,
        snap_key: &SnapKey,
        snap: Option<&Snapshot>,
    ) -> (r: PostApply)
        requires
            snap is Some && !old(self)@.first_snapshot(ob_region@.id) && !old(
                self,
            )@.tracer.contains_key(*snap_key) ==> snapshot::snapshot_fits(snap->0.cf_files@),
        ensures
            ({
                let s = old(self)@;
                if s.first_snapshot(ob_region@.id) {
                    &&& r is Finished
                    &&& final(self)@ == s.first_snapshot_passed(ob_region@.id)
                } else if snap is None {
                    &&& r is Finished
                    &&& final(self)@ == s
                } else if s.tracer.contains_key(*snap_key) {
                    &&& r == PostApply::AwaitTask(s.tracer[*snap_key])
                    &&& final(self)@ == (ProxyForwarderView {
                        tracer: s.tracer.remove(*snap_key),
                        ..s
                    })
                } else {
                    &&& r is PreHandle
                    &&& r->PreHandle_0@ == snapshot::request_for(
                        ob_region@,
                        peer_id,
                        *snap_key,
                        snap->0.cf_files@,
                    )
                    &&& final(self)@ == s
                }
            }),
    {
        let region_id: u64 = ob_region.id;
        if self.is_first_snapshot(region_id) {
            let info = self.cached.get_cached_region_info(region_id).unwrap();
            self.cached.set_cached_region_info(
                region_id,
                Some(
                    CachedRegionInfo {
                        inited: true,
                        snapshot_inflight: 0,
                        fast_add_peer_start: 0,
                        ..info
                    },
                ),
            );
            return PostApply::Finished;
        }
        let snap = match snap {
            None => return PostApply::Finished,
            Some(s) => s,
        };
        match self.pre_handle_snapshot_ctx.remove(*snap_key) {
            Some(t) => PostApply::AwaitTask(t),
            None => {
                assert(self@.tracer =~= old(self)@.tracer);
                let ssts = snapshot::retrieve_sst_files(snap);
                PostApply::PreHandle(
                    snapshot::pre_handle_snapshot_impl(peer_id, ssts, ob_region, snap_key),
                )
            },
        }
    }

    /// Goes on with a snapshot once the background has answered: with the address of its
    /// result, or with nothing where it failed.
    pub fn post_apply_snapshot_received(
        &mut self,
        ob_region: &Region,
        peer_id: u64,
        snap_key: &SnapKey,
        snap: &Snapshot,
        received: Option<usize>,
    ) -> (r: Prehandled)
        requires
            received is None ==> snapshot::snapshot_fits(snap.cf_files@),
        ensures
            final(self)@ == (ProxyForwarderView {
                pending_applies_count: old(self)@.pending_applies_count.wrapping_sub(1),
                ..old(self)@
            }),
            match received {
                Some(ptr) => r == Prehandled::Apply(ptr),
                None => r is PreHandle && r->PreHandle_0@ == snapshot::request_for(
                    ob_region@,
                    peer_id,
                    *snap_key,
                    snap.cf_files@,
                ),
            },
    {
        self.pending_applies_count = self.pending_applies_count.wrapping_sub(1);
        match received {
            Some(ptr) => Prehandled::Apply(ptr),
            None => {
                let ssts = snapshot::retrieve_sst_files(snap);
                Prehandled::PreHandle(
                    snapshot::pre_handle_snapshot_impl(peer_id, ssts, ob_region, snap_key),
                )
            },
        }
    }

    /// Whether snapshots are handled before raft applies them: they are.
    pub fn should_pre_apply_snapshot(&self) -> (r: bool)
        ensures
            r,
    {
        true
    }
}

/// A snapshot that was started in the background and then asked for leaves no trace: the
/// same task comes back, it is registered no longer, and the count of those under way is
/// what it was.
pub proof fn snapshot_leaves_no_trace(
    before: ProxyForwarderView,
    key: SnapKey,
    task: PrehandleTask,
)
    requires
        !before.tracer.contains_key(key),
    ensures
        ({
            let started = ProxyForwarderView {
                tracer: before.tracer.insert(key, task),
                pending_applies_count: before.pending_applies_count.wrapping_add(1),
                ..before
            };
            let asked = ProxyForwarderView { tracer: started.tracer.remove(key), ..started };
            let done = ProxyForwarderView {
                pending_applies_count: asked.pending_applies_count.wrapping_sub(1),
                ..asked
            };
            started.tracer[key] == task && done == before
        }),
{
    assert(before.tracer.insert(key, task).remove(key) =~= before.tracer);
}

/// A region passes its first snapshot once: afterwards its snapshots go to the engine store.
pub proof fn first_snapshot_once(s: ProxyForwarderView, region_id: u64)
    requires
        s.first_snapshot(region_id),
    ensures
        !s.first_snapshot_passed(region_id).first_snapshot(region_id),
        forall|other: u64|
            other != region_id ==> (#[trigger] s.first_snapshot_passed(region_id).first_snapshot(
                other,
            ) == s.first_snapshot(other)),
{
}

} // verus!
