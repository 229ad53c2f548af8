//! What holds of the commands that are handed to the engine store.

use vstd::prelude::*;

use crate::command;
use crate::command::{
    after_flush, plan_admin, plan_query, pre_exec_admin, pre_persist, write_persists, AdminPlan,
    ApplyCtxInfo, Cmd, PreExecAdmin, QueryPlan, RaftCmdRequest, RegionState, Request, SstMetaInfo,
};
use crate::engine_store;
use crate::engine_store::EngineStoreServerView;
use crate::engine_store_laws;
use crate::ffi::{EngineStoreApplyRes, RaftCmdHeader, WriteCmdCf, WriteCmdType};
use crate::forwarder::{ProxyForwarder, RegionChangeEvent, SafeTsUpdate};
use crate::messages::{AdminCmdType, AdminRequest, AdminResponse, Region};
use crate::observer::TiFlashObserver;

verus! {

/// How many of the first `n` requests set or remove a key.
pub open spec fn writes_before(reqs: Seq<Request>, n: int) -> nat
    decreases n,
{
    if n <= 0 {
        0
    } else {
        writes_before(reqs, n - 1) + (if reqs[n - 1] is Put || reqs[n - 1] is Delete {
            1nat
        } else {
            0nat
        })
    }
}

/// How many of the first `n` requests bring a sorted file.
pub open spec fn files_before(reqs: Seq<Request>, n: int) -> nat
    decreases n,
{
    if n <= 0 {
        0
    } else {
        files_before(reqs, n - 1) + (if reqs[n - 1] is IngestSst {
            1nat
        } else {
            0nat
        })
    }
}

/// A column family goes by this number: 0 the locks, 1 the writes, 2 the default one, which also
/// goes by no name.
pub open spec fn has_number(name: Seq<char>, number: u8) -> bool {
    ||| name == "lock"@ && number == 0
    ||| name == "write"@ && number == 1
    ||| (name == "default"@ || name.len() == 0) && number == 2
}

/// What a write command comes to at the engine store: each put and each delete in its place, on
/// its column family, or each sorted file in its place; nothing of a command that failed. In any
/// case the engine store learns where the command stands.
pub open spec fn query_arrives(plan: QueryPlan, region_id: u64, cmd: Cmd) -> bool {
    let reqs = cmd.request.requests@;
    let n = reqs.len() as int;
    match plan {
        QueryPlan::Write { cmds, header } => {
            &&& header.region_id == region_id
            &&& header.index == cmd.index
            &&& header.term == cmd.term
            &&& cmd.response.has_error || files_before(reqs, n) == 0
            &&& cmd.response.has_error ==> cmds@.len() == 0
            &&& !cmd.response.has_error ==> {
                &&& cmds@.len() == writes_before(reqs, n)
                &&& forall|i: int|
                    0 <= i < n ==> {
                        let w = cmds@[writes_before(reqs, i) as int];
                        match #[trigger] reqs[i] {
                            Request::Put { cf, key, value } => {
                                &&& writes_before(reqs, i) < cmds@.len()
                                &&& w.cmd_type == WriteCmdType::Put
                                &&& w.key == key@
                                &&& w.val == value@
                                &&& has_number(cf@, w.cf)
                            },
                            Request::Delete { cf, key } => {
                                &&& writes_before(reqs, i) < cmds@.len()
                                &&& w.cmd_type == WriteCmdType::Del
                                &&& w.key == key@
                                &&& w.val.len() == 0
                                &&& has_number(cf@, w.cf)
                            },
                            _ => true,
                        }
                    }
            }
        },
        QueryPlan::Ingest { ssts, header } => {
            &&& header.region_id == region_id
            &&& header.index == cmd.index
            &&& header.term == cmd.term
            &&& !cmd.response.has_error
            &&& files_before(reqs, n) > 0
            &&& ssts@.len() == files_before(reqs, n)
            &&& forall|i: int|
                0 <= i < n ==> match #[trigger] reqs[i] {
                    Request::IngestSst { sst } => {
                        let meta = ssts@[files_before(reqs, i) as int].meta;
                        &&& files_before(reqs, i) < ssts@.len()
                        &&& meta.uuid@ == sst.uuid@
                        &&& meta.region_id == sst.region_id
                        &&& meta.cf_name@ == sst.cf_name@
                    },
                    _ => true,
                }
        },
    }
}

proof fn writes_stand_in_place(reqs: Seq<Request>, n: int)
    requires
        0 <= n <= reqs.len(),
        forall|i: int| 0 <= i < reqs.len() ==> command::request_fits(#[trigger] reqs[i]),
    ensures
        command::writes_of(reqs.take(n)).len() == writes_before(reqs, n),
        forall|i: int|
            0 <= i < n ==> {
                let ws = command::writes_of(reqs.take(n));
                let at = writes_before(reqs, i) as int;
                match #[trigger] reqs[i] {
                    Request::Put { cf, key, value } => {
                        &&& at < ws.len()
                        &&& ws[at].cmd_type == WriteCmdType::Put
                        &&& ws[at].key == key@
                        &&& ws[at].val == value@
                        &&& has_number(cf@, ws[at].cf)
                    },
                    Request::Delete { cf, key } => {
                        &&& at < ws.len()
                        &&& ws[at].cmd_type == WriteCmdType::Del
                        &&& ws[at].key == key@
                        &&& ws[at].val.len() == 0
                        &&& has_number(cf@, ws[at].cf)
                    },
                    _ => true,
                }
            },
    decreases n,
{
    if n > 0 {
        writes_stand_in_place(reqs, n - 1);
        assert(reqs.take(n).drop_last() =~= reqs.take(n - 1));
        assert(reqs.take(n).last() == reqs[n - 1]);
        assert(command::request_fits(reqs[n - 1]));
    }
}

proof fn files_stand_in_place(reqs: Seq<Request>, n: int)
    requires
        0 <= n <= reqs.len(),
    ensures
        command::ssts_of(reqs.take(n)).len() == files_before(reqs, n),
        forall|i: int|
            0 <= i < n ==> {
                let fs = command::ssts_of(reqs.take(n));
                let at = files_before(reqs, i) as int;
                match #[trigger] reqs[i] {
                    Request::IngestSst { sst } => at < fs.len() && fs[at] == sst@,
                    _ => true,
                }
            },
    decreases n,
{
    if n > 0 {
        files_stand_in_place(reqs, n - 1);
        assert(reqs.take(n).drop_last() =~= reqs.take(n - 1));
        assert(reqs.take(n).last() == reqs[n - 1]);
    }
}

proof fn plan_arrives(plan: QueryPlan, region_id: u64, cmd: Cmd)
    requires
        cmd.response.has_error || command::requests_fit(cmd.request.requests@),
        command::is_query_plan(plan, region_id, cmd),
    ensures
        query_arrives(plan, region_id, cmd),
{
    let reqs = cmd.request.requests@;
    let n = reqs.len() as int;
    assert(reqs.take(n) =~= reqs);
    files_stand_in_place(reqs, n);
    if !cmd.response.has_error {
        writes_stand_in_place(reqs, n);
    }
    if let QueryPlan::Ingest { ssts, header } = plan {
        assert(command::unsized_views(ssts@).len() == ssts@.len());
        assert forall|i: int| 0 <= i < n implies match #[trigger] reqs[i] {
            Request::IngestSst { sst } => {
                let meta = ssts@[files_before(reqs, i) as int].meta;
                &&& files_before(reqs, i) < ssts@.len()
                &&& meta.uuid@ == sst.uuid@
                &&& meta.region_id == sst.region_id
                &&& meta.cf_name@ == sst.cf_name@
            },
            _ => true,
        } by {
            if let Request::IngestSst { sst } = reqs[i] {
                let at = files_before(reqs, i) as int;
                assert(command::unsized_views(ssts@)[at] == sst@);
                assert(ssts@[at].meta@ == sst@);
            }
        }
    }
}

/// Every put, delete and sorted file of a write command arrives at the engine store as it was
/// asked for.
pub proof fn writes_arrive<'a>(region_id: u64, cmd: &'a Cmd, plan: QueryPlan<'a>)
    requires
        cmd.response.has_error || command::requests_fit(cmd.request.requests@),
        call_ensures(plan_query, (region_id, cmd), plan),
    ensures
        query_arrives(plan, region_id, *cmd),
{
    plan_arrives(plan, region_id, *cmd);
}

/// So it does through the forwarder.
pub proof fn forwarded_writes_arrive<'a>(
    f: &ProxyForwarder,
    region: &Region,
    cmd: &'a Cmd,
    plan: QueryPlan<'a>,
)
    requires
        cmd.response.has_error || command::requests_fit(cmd.request.requests@),
        call_ensures(ProxyForwarder::post_exec_query, (f, region, cmd), plan),
    ensures
        query_arrives(plan, region.id, *cmd),
{
    plan_arrives(plan, region.id, *cmd);
}

/// So it does through the observer.
pub proof fn observed_writes_arrive<'a>(
    o: &TiFlashObserver,
    region: &Region,
    cmd: &'a Cmd,
    plan: QueryPlan<'a>,
)
    requires
        cmd.response.has_error || command::requests_fit(cmd.request.requests@),
        call_ensures(TiFlashObserver::post_exec_query, (o, region, cmd), plan),
    ensures
        query_arrives(plan, region.id, *cmd),
{
    plan_arrives(plan, region.id, *cmd);
}

/// A result holds the region that a command changed, and nothing else.
pub open spec fn only_changes(response: AdminResponse, state: RegionState) -> bool {
    &&& response.split_left@ == state.modified_region->0@
    &&& response.splits@.len() == 0
    &&& response.change_peer.id == 0
    &&& response.change_peer.peers@.len() == 0
}

/// What an administrative command comes to at the engine store: the command as it stands in the
/// log, with its result, which for each step of a merge is the region that the step changed;
/// nothing of a command that failed but where it stands.
pub open spec fn admin_arrives(
    plan: AdminPlan,
    region_id: u64,
    cmd: Cmd,
    state: RegionState,
) -> bool {
    match plan {
        AdminPlan::Failed { header } => {
            &&& cmd.response.has_error
            &&& header.region_id == region_id
            &&& header.index == cmd.index
            &&& header.term == cmd.term
        },
        AdminPlan::Admin { request, response, header } => {
            &&& !cmd.response.has_error
            &&& header.region_id == region_id
            &&& header.index == cmd.index
            &&& header.term == cmd.term
            &&& match cmd.request.admin_request {
                Some(asked) => {
                    &&& request.cmd_type == asked.cmd_type
                    &&& request.compact_log == asked.compact_log
                    &&& request@.prepare_merge == asked@.prepare_merge
                    &&& request.commit_merge_source@ == asked.commit_merge_source@
                },
                None => request.cmd_type == AdminCmdType::InvalidAdmin,
            }
            &&& match request.cmd_type {
                AdminCmdType::PrepareMerge => only_changes(response, state),
                AdminCmdType::CommitMerge => only_changes(response, state),
                AdminCmdType::RollbackMerge => only_changes(response, state),
                _ => {
                    &&& response.change_peer@ == cmd.response.admin_response.change_peer@
                    &&& response@.splits == cmd.response.admin_response@.splits
                    &&& response.split_left@ == cmd.response.admin_response.split_left@
                },
            }
        },
    }
}

/// Every administrative command arrives at the engine store with its result.
pub proof fn admin_commands_arrive(
    region_id: u64,
    cmd: &Cmd,
    state: &RegionState,
    plan: AdminPlan,
)
    requires
        call_ensures(plan_admin, (region_id, cmd, state), plan),
    ensures
        admin_arrives(plan, region_id, *cmd, *state),
{
    result_is_whole(plan);
}

proof fn result_is_whole(plan: AdminPlan)
    ensures
        plan matches AdminPlan::Admin { response, .. } ==> {
            &&& response@.splits.len() == response.splits@.len()
            &&& response@.change_peer == response.change_peer@
            &&& response@.split_left == response.split_left@
            &&& response.change_peer@.peers == response.change_peer.peers@
        },
{
}

/// So it does through the forwarder and through the observer.
pub proof fn forwarded_admin_commands_arrive(
    f: &ProxyForwarder,
    o: &TiFlashObserver,
    region: &Region,
    cmd: &Cmd,
    state: &RegionState,
    plan: AdminPlan,
)
    requires
        call_ensures(ProxyForwarder::post_exec_admin, (f, region, cmd, state), plan)
            || call_ensures(TiFlashObserver::post_exec_admin, (o, region, cmd, state), plan),
    ensures
        admin_arrives(plan, region.id, *cmd, *state),
{
    result_is_whole(plan);
}

/// The engine store takes what is handed over for the first step of a merge, where the step
/// counted the change of peers and the store can count on.
pub proof fn prepared_merge_is_taken(
    s: EngineStoreServerView,
    region_id: u64,
    cmd: &Cmd,
    state: &RegionState,
    plan: AdminPlan,
)
    requires
        call_ensures(plan_admin, (region_id, cmd, state), plan),
        !cmd.response.has_error,
        cmd.request.admin_request matches Some(r) && r.cmd_type == AdminCmdType::PrepareMerge
            && r.prepare_merge is Some,
        s.engines,
        ({
            let known = engine_store_laws::known(s, region_id);
            let e = known.region.epoch();
            &&& known.apply_state.applied_index < cmd.index
            &&& known.region.region_epoch is Some
            &&& e.version < u64::MAX
            &&& e.conf_ver < u64::MAX
            &&& state.modified_region matches Some(m) && m@.epoch().conf_ver == e.conf_ver + 1
        }),
    ensures
        plan is Admin,
        engine_store::admin_fits(
            s,
            plan->request@,
            plan->response@,
            plan->Admin_header,
        ),
{
}

/// The engine store takes what is handed over for the last step of a merge, where the step gave
/// the region the range of both.
pub proof fn committed_merge_is_taken(
    s: EngineStoreServerView,
    region_id: u64,
    cmd: &Cmd,
    state: &RegionState,
    plan: AdminPlan,
)
    requires
        call_ensures(plan_admin, (region_id, cmd, state), plan),
        !cmd.response.has_error,
        s.engines,
        cmd.request.admin_request matches Some(r) && {
            let known = engine_store_laws::known(s, region_id);
            let source = r.commit_merge_source@;
            &&& r.cmd_type == AdminCmdType::CommitMerge
            &&& s.regions.contains_key(source.id)
            &&& known.apply_state.applied_index < cmd.index
            &&& source.epoch().version < u64::MAX
            &&& known.region.epoch().version < u64::MAX
            &&& state.modified_region matches Some(m) && {
                ||| m@.start_key == source.start_key && m@.end_key == source.end_key
                ||| source.end_key == known.region.start_key && known.region.start_key.len() > 0
                    && m@.start_key == source.start_key
                ||| source.start_key == known.region.end_key && known.region.end_key.len() > 0
                    && source.end_key != known.region.start_key && m@.end_key == source.end_key
            }
        },
    ensures
        plan is Admin,
        engine_store::admin_fits(
            s,
            plan->request@,
            plan->response@,
            plan->Admin_header,
        ),
{
}

/// The first word on an administrative command: the log is cut off only after one try to flush
/// the region, which is asked for at the command's place; checks of the data and changes of the
/// leader are never executed; everything else is.
pub open spec fn first_word(
    p: PreExecAdmin,
    t: AdminCmdType,
    id: u64,
    index: u64,
    term: u64,
) -> bool {
    match p {
        PreExecAdmin::TryFlush(flush) => {
            &&& t == AdminCmdType::CompactLog
            &&& flush.region_id == id
            &&& flush.index == index
            &&& flush.term == term
            &&& !flush.force_persist
            &&& !flush.try_until_succeed
        },
        PreExecAdmin::Filter(left_out) => {
            &&& t != AdminCmdType::CompactLog
            &&& left_out <==> t == AdminCmdType::ComputeHash || t == AdminCmdType::VerifyHash || t
                == AdminCmdType::TransferLeader
        },
    }
}

/// The forwarder and the observer have the same first word on an administrative command.
pub proof fn commands_are_filtered(
    f: &ProxyForwarder,
    o: &TiFlashObserver,
    region: &Region,
    req: &AdminRequest,
    index: u64,
    term: u64,
    p: PreExecAdmin,
)
    requires
        ({
            ||| call_ensures(ProxyForwarder::pre_exec_admin, (f, region, req, index, term), p)
            ||| call_ensures(TiFlashObserver::pre_exec_admin, (o, region, req, index, term), p)
            ||| call_ensures(pre_exec_admin, (region.id, req.cmd_type, index, term), p)
        }),
    ensures
        first_word(p, req.cmd_type, region.id, index, term),
{
}

/// Cutting off the log is left out exactly where the flush was refused.
pub proof fn refused_flush_keeps_the_log(flushed: bool, left_out: bool)
    requires
        call_ensures(after_flush, (flushed,), left_out),
    ensures
        flushed != left_out,
{
}

/// When the state of a region is made durable after a command: never where the engine store wants
/// to wait, and never for a replica that is about to go; always where the engine store asks for
/// it and the replica stays. Where the engine store does not know the region, it depends on the
/// command.
pub open spec fn decides(
    durable: bool,
    res: EngineStoreApplyRes,
    state: RegionState,
    unknown_too: bool,
) -> bool {
    &&& state.pending_remove ==> !durable
    &&& res == EngineStoreApplyRes::NoPersist ==> !durable
    &&& res == EngineStoreApplyRes::Persist && !state.pending_remove ==> durable
    &&& res == EngineStoreApplyRes::NotFound && !state.pending_remove ==> durable == unknown_too
}

/// Writes of a region that the engine store does not know are not made durable, administrative
/// commands are.
pub proof fn durability_is_decided(
    res: EngineStoreApplyRes,
    state: &RegionState,
    for_write: bool,
    for_admin: bool,
)
    requires
        call_ensures(write_persists, (res, state), for_write),
        call_ensures(command::admin_persists, (res, state), for_admin),
    ensures
        decides(for_write, res, *state, false),
        decides(for_admin, res, *state, true),
        for_write ==> for_admin,
{
}

/// The forwarder and the observer decide by the kind of what was handed over: a command that
/// failed counts as writes.
pub proof fn admin_durability_is_decided(
    f: &ProxyForwarder,
    o: &TiFlashObserver,
    plan: &AdminPlan,
    res: EngineStoreApplyRes,
    state: &RegionState,
    durable: bool,
)
    requires
        call_ensures(ProxyForwarder::post_exec_admin_done, (f, plan, res, state), durable)
            || call_ensures(TiFlashObserver::post_exec_admin_done, (o, plan, res, state), durable),
    ensures
        decides(durable, res, *state, *plan is Admin),
{
}

/// A state may be made durable after the last command of a batch, and in the middle of one only
/// after a merge was committed or rolled back.
pub proof fn batches_are_kept_whole(
    f: &ProxyForwarder,
    o: &TiFlashObserver,
    finished: bool,
    cmd: Option<&RaftCmdRequest>,
    r: bool,
)
    requires
        ({
            ||| call_ensures(ProxyForwarder::pre_persist, (f, finished, cmd), r)
            ||| call_ensures(TiFlashObserver::pre_persist, (o, finished, cmd), r)
            ||| call_ensures(pre_persist, (finished, cmd), r)
        }),
        finished || cmd is Some,
    ensures
        finished ==> r,
        !finished ==> (r <==> (cmd->0.admin_request matches Some(q) && (q.cmd_type
            == AdminCmdType::CommitMerge || q.cmd_type == AdminCmdType::RollbackMerge))),
{
}

/// What becomes of sorted files: none is lost and none is doubled. Where the engine store wants to
/// wait, none can be deleted yet, and those of the command are kept. Otherwise those of the
/// command and those that were kept for the region can be deleted, and those that are kept for
/// other regions stay.
pub open spec fn files_are_safe(
    kept: Seq<SstMetaInfo>,
    kept_after: Seq<SstMetaInfo>,
    ctx: ApplyCtxInfo,
    ctx_after: ApplyCtxInfo,
    region_id: u64,
    res: EngineStoreApplyRes,
) -> bool {
    match ctx.pending_handle_ssts {
        None => {
            &&& kept_after == kept
            &&& ctx_after.delete_ssts@ == ctx.delete_ssts@
            &&& ctx_after.pending_handle_ssts is None
        },
        Some(v) => {
            &&& ctx_after.pending_handle_ssts matches Some(left) ==> left@.len() == 0
            &&& kept_after.to_multiset().add(ctx_after.delete_ssts@.to_multiset())
                =~= kept.to_multiset().add(ctx.delete_ssts@.to_multiset()).add(v@.to_multiset())
            &&& res == EngineStoreApplyRes::NoPersist ==> {
                &&& ctx_after.delete_ssts@ == ctx.delete_ssts@
                &&& forall|i: int|
                    0 <= i < v@.len() ==> kept_after[kept.len() + i] == #[trigger] v@[i]
                &&& forall|i: int| 0 <= i < kept.len() ==> kept_after[i] == #[trigger] kept[i]
            }
            &&& res != EngineStoreApplyRes::NoPersist ==> {
                &&& forall|x: SstMetaInfo| #[trigger]
                    kept_after.contains(x) <==> kept.contains(x) && x.meta.region_id != region_id
                &&& forall|x: SstMetaInfo| #[trigger]
                    ctx_after.delete_ssts@.contains(x) <==> ctx.delete_ssts@.contains(x)
                        || v@.contains(x) || kept.contains(x) && x.meta.region_id == region_id
            }
        },
    }
}

proof fn finished_is_safe(
    kept: Seq<SstMetaInfo>,
    kept_after: Seq<SstMetaInfo>,
    ctx: ApplyCtxInfo,
    ctx_after: ApplyCtxInfo,
    region_id: u64,
    res: EngineStoreApplyRes,
)
    requires
        command::ingest_finished(kept, kept_after, ctx, ctx_after, region_id, res),
    ensures
        files_are_safe(kept, kept_after, ctx, ctx_after, region_id, res),
{
    broadcast use vstd::seq_lib::group_filter_ensures;

    command::no_sst_lost(kept, kept_after, ctx, ctx_after, region_id, res);
    if ctx.pending_handle_ssts is Some && res != EngineStoreApplyRes::NoPersist {
        let v = ctx.pending_handle_ssts->0@;
        let out = command::of_region(kept, region_id);
        let stay = command::not_of_region(kept, region_id);
        let mine = |x: SstMetaInfo| x.meta.region_id == region_id;
        let other = |x: SstMetaInfo| x.meta.region_id != region_id;
        assert(out == kept.filter(mine));
        assert(stay == kept.filter(other));
        assert forall|x: SstMetaInfo| #[trigger] stay.contains(x) <==> kept.contains(x)
            && x.meta.region_id != region_id by {
            filtered(kept, other, x);
        }
        let del = ctx.delete_ssts@;
        assert forall|x: SstMetaInfo| #[trigger]
            ctx_after.delete_ssts@.contains(x) <==> del.contains(x) || v.contains(x)
                || kept.contains(x) && x.meta.region_id == region_id by {
            filtered(kept, mine, x);
            in_sum(del, out, x);
            in_sum(del + out, v, x);
        }
    }
}

proof fn in_sum<T>(a: Seq<T>, b: Seq<T>, x: T)
    ensures
        (a + b).contains(x) <==> a.contains(x) || b.contains(x),
{
    let s = a + b;
    if a.contains(x) {
        assert(s[a.index_of(x)] == x);
    }
    if b.contains(x) {
        assert(s[a.len() + b.index_of(x)] == x);
    }
    if s.contains(x) {
        let i = s.index_of(x);
        if i < a.len() {
            assert(a[i] == x);
        } else {
            assert(b[i - a.len()] == x);
        }
    }
}

proof fn filtered<T>(s: Seq<T>, f: spec_fn(T) -> bool, x: T)
    ensures
        s.filter(f).contains(x) <==> s.contains(x) && f(x),
    decreases s.len(),
{
    reveal(Seq::filter);
    if s.len() > 0 {
        let p = s.drop_last();
        filtered(p, f, x);
        let q = p.filter(f);
        assert(s =~= p.push(s.last()));
        in_sum(p, seq![s.last()], x);
        assert(p + seq![s.last()] =~= s);
        assert(seq![s.last()].contains(x) <==> x == s.last()) by {
            assert(seq![s.last()][0] == s.last());
        }
        if f(s.last()) {
            in_sum(q, seq![s.last()], x);
            assert(q + seq![s.last()] =~= s.filter(f));
        }
    }
}

/// Sorted files are safe once the engine store has answered to an ingestion.
pub proof fn ingested_files_are_safe(
    kept: &mut Vec<SstMetaInfo>,
    ctx: &mut ApplyCtxInfo,
    region_id: u64,
    res: EngineStoreApplyRes,
    state: &RegionState,
    durable: bool,
)
    requires
        call_ensures(command::finish_ingest, (kept, ctx, region_id, res, state), durable),
    ensures
        files_are_safe(old(kept)@, final(kept)@, *old(ctx), *final(ctx), region_id, res),
        decides(durable, res, *state, true),
{
    finished_is_safe(old(kept)@, final(kept)@, *old(ctx), *final(ctx), region_id, res);
}

/// So they are at the forwarder; writes do not touch them.
pub proof fn forwarded_files_are_safe(
    f: &mut ProxyForwarder,
    region: &Region,
    plan: &QueryPlan,
    res: EngineStoreApplyRes,
    state: &RegionState,
    ctx: &mut ApplyCtxInfo,
    durable: bool,
)
    requires
        call_ensures(
            ProxyForwarder::post_exec_query_done,
            (f, region, plan, res, state, ctx),
            durable,
        ),
    ensures
        decides(durable, res, *state, *plan is Ingest),
        final(f)@.store_id == old(f)@.store_id,
        final(f)@.enable_fast_add_peer == old(f)@.enable_fast_add_peer,
        final(f)@.cached == old(f)@.cached,
        final(f)@.tracer == old(f)@.tracer,
        final(f)@.apply_snap_pool == old(f)@.apply_snap_pool,
        final(f)@.pending_applies_count == old(f)@.pending_applies_count,
        *plan is Write ==> final(f)@.pending_delete_ssts == old(f)@.pending_delete_ssts
            && *final(ctx) == *old(ctx),
        *plan is Ingest ==> files_are_safe(
            old(f)@.pending_delete_ssts,
            final(f)@.pending_delete_ssts,
            *old(ctx),
            *final(ctx),
            region.id,
            res,
        ),
{
    if *plan is Ingest {
        finished_is_safe(
            old(f)@.pending_delete_ssts,
            final(f)@.pending_delete_ssts,
            *old(ctx),
            *final(ctx),
            region.id,
            res,
        );
    }
}

/// So they are at the observer; writes do not touch them.
pub proof fn observed_files_are_safe(
    o: &mut TiFlashObserver,
    region: &Region,
    plan: &QueryPlan,
    res: EngineStoreApplyRes,
    state: &RegionState,
    ctx: &mut ApplyCtxInfo,
    durable: bool,
)
    requires
        call_ensures(
            TiFlashObserver::post_exec_query_done,
            (o, region, plan, res, state, ctx),
            durable,
        ),
    ensures
        decides(durable, res, *state, *plan is Ingest),
        final(o)@.store_id == old(o)@.store_id,
        final(o)@.cached == old(o)@.cached,
        final(o)@.tracer == old(o)@.tracer,
        final(o)@.apply_snap_pool == old(o)@.apply_snap_pool,
        final(o)@.pending_applies_count == old(o)@.pending_applies_count,
        *plan is Write ==> final(o)@.pending_delete_ssts == old(o)@.pending_delete_ssts
            && *final(ctx) == *old(ctx),
        *plan is Ingest ==> files_are_safe(
            old(o)@.pending_delete_ssts,
            final(o)@.pending_delete_ssts,
            *old(ctx),
            *final(ctx),
            region.id,
            res,
        ),
{
    if *plan is Ingest {
        finished_is_safe(
            old(o)@.pending_delete_ssts,
            final(o)@.pending_delete_ssts,
            *old(ctx),
            *final(ctx),
            region.id,
            res,
        );
    }
}

/// The files that are handed on for an ingestion are those before the first one that the region
/// may not take, each where it lies and on its column family.
pub proof fn checked_files_are_handed_on(
    ssts: &Vec<SstMetaInfo>,
    checks: &Vec<command::SstCheck>,
    r: Vec<(String, WriteCmdCf)>,
    i: int,
)
    requires
        ssts@.len() == checks@.len(),
        forall|j: int|
            0 <= j < r@.len() ==> WriteCmdCf::of_name(
                (#[trigger] ssts@[j]).meta.cf_name@,
            ) is Some,
        call_ensures(command::handle_ingest_sst_for_engine_store, (ssts, checks), r),
    ensures
        r@.len() <= checks@.len(),
        r@.len() < checks@.len() ==> !checks@[r@.len() as int].valid,
        0 <= i < r@.len() ==> {
            &&& checks@[i].valid
            &&& r@[i].0@ == checks@[i].path@
            &&& r@[i].1 == WriteCmdCf::Lock ==> ssts@[i].meta.cf_name@ == "lock"@
            &&& r@[i].1 == WriteCmdCf::Write ==> ssts@[i].meta.cf_name@ == "write"@
            &&& r@[i].1 == WriteCmdCf::Default ==> ssts@[i].meta.cf_name@ == "default"@
                || ssts@[i].meta.cf_name@.len() == 0
        },
{
    let n = first_bad(checks@, 0);
    command::valid_prefix_is(checks@, n);
    assert(command::path_views(r@).len() == r@.len());
    if 0 <= i < r@.len() {
        assert(command::path_views(r@)[i] == command::sst_paths(ssts@, checks@)[i]);
        assert(WriteCmdCf::of_name(ssts@[i].meta.cf_name@) is Some);
    }
}

proof fn first_bad(c: Seq<command::SstCheck>, i: int) -> (n: int)
    requires
        0 <= i <= c.len(),
        forall|j: int| 0 <= j < i ==> (#[trigger] c[j]).valid,
    ensures
        0 <= n <= c.len(),
        forall|j: int| 0 <= j < n ==> (#[trigger] c[j]).valid,
        n < c.len() ==> !c[n].valid,
    decreases c.len() - i,
{
    if i < c.len() && c[i].valid {
        first_bad(c, i + 1)
    } else {
        i
    }
}

/// The engine store learns of an empty command where it stands, of the times up to which reads are
/// consistent each in its place, and of a region exactly when it was destroyed.
pub proof fn notices_arrive(
    f: &ProxyForwarder,
    o: &TiFlashObserver,
    region: &Region,
    index: u64,
    term: u64,
    empty: RaftCmdHeader,
    own: u64,
    leader: u64,
    times: SafeTsUpdate,
    event: RegionChangeEvent,
    gone: Option<u64>,
)
    requires
        call_ensures(ProxyForwarder::on_empty_cmd, (f, region, index, term), empty)
            || call_ensures(TiFlashObserver::on_empty_cmd, (o, region, index, term), empty),
        call_ensures(ProxyForwarder::on_update_safe_ts, (f, region.id, own, leader), times)
            || call_ensures(TiFlashObserver::on_update_safe_ts, (o, region.id, own, leader), times),
        call_ensures(TiFlashObserver::on_region_changed, (o, region, event), gone),
    ensures
        empty.region_id == region.id && empty.index == index && empty.term == term,
        times.region_id == region.id && times.self_safe_ts == own && times.leader_safe_ts
            == leader,
        gone is Some <==> event == RegionChangeEvent::Destroy,
        gone is Some ==> gone->0 == region.id,
{
}

} // verus!
