//! What the operations can be asked to do.

use vstd::prelude::*;

use crate::command;
use crate::command::{Cmd, RegionState, Request};
use crate::engine_store::{EngineStoreServerWrap, PrehandledSnapshot};
use crate::ffi;
use crate::ffi::{RaftCmdHeader, WriteCmdsView};
use crate::forward_laws::{files_before, writes_before};
use crate::forwarder::ProxyForwarder;
use crate::messages::{AdminCmdType, AdminRequest, AdminResponse, Region};
use crate::observer::TiFlashObserver;
use crate::page_storage::MockPageStorage;
use crate::ps_engine::PSEngine;
use crate::raft_entry;
use crate::raft_entry::Entry;
use crate::snapshot;
use crate::snapshot::{CfFile, SnapKey, Snapshot};
use crate::sst_reader::SstData;
use crate::store_laws::known;

verus! {

/// A name of a column family; the default one also goes by no name.
pub open spec fn is_family(name: Seq<char>) -> bool {
    name == "lock"@ || name == "write"@ || name == "default"@ || name.len() == 0
}

/// Each column family can be asked for by its name.
pub proof fn families_have_names(name: &str)
    requires
        is_family(name@),
    ensures
        call_requires(ffi::name_to_cf, (name,)),
{
}

/// A request that the proxy takes: puts, deletes, gets, snapshots and sorted files.
pub open spec fn is_taken(req: Request) -> bool {
    match req {
        Request::Put { cf, .. } => is_family(cf@),
        Request::Delete { cf, .. } => is_family(cf@),
        Request::Prewrite | Request::Invalid | Request::ReadIndex => false,
        _ => true,
    }
}

proof fn counts_agree(reqs: Seq<Request>, n: int)
    requires
        0 <= n <= reqs.len(),
    ensures
        command::writes_of(reqs.take(n)).len() == writes_before(reqs, n),
        command::ssts_of(reqs.take(n)).len() == files_before(reqs, n),
    decreases n,
{
    if n > 0 {
        counts_agree(reqs, n - 1);
        assert(reqs.take(n).drop_last() =~= reqs.take(n - 1));
        assert(reqs.take(n).last() == reqs[n - 1]);
    }
}

/// Every write command that failed can be forwarded, and every one whose requests are taken and
/// that does not mix sorted files with other writes.
pub proof fn writes_can_be_forwarded(
    region_id: u64,
    cmd: &Cmd,
    f: &ProxyForwarder,
    o: &TiFlashObserver,
    region: &Region,
)
    requires
        cmd.response.has_error || {
            let reqs = cmd.request.requests@;
            let n = reqs.len() as int;
            &&& forall|i: int| 0 <= i < n ==> is_taken(#[trigger] reqs[i])
            &&& files_before(reqs, n) == 0 || writes_before(reqs, n) == 0
        },
    ensures
        call_requires(command::plan_query, (region_id, cmd)),
        call_requires(ProxyForwarder::post_exec_query, (f, region, cmd)),
        call_requires(TiFlashObserver::post_exec_query, (o, region, cmd)),
{
    let reqs = cmd.request.requests@;
    let n = reqs.len() as int;
    counts_agree(reqs, n);
    assert(reqs.take(n) =~= reqs);
    if !cmd.response.has_error {
        assert forall|i: int| 0 <= i < n implies command::request_fits(#[trigger] reqs[i]) by {
            assert(is_taken(reqs[i]));
        }
    }
}

/// Every administrative command can be forwarded; a step of a merge comes with the region that
/// it changed.
pub proof fn admin_commands_can_be_forwarded(
    region_id: u64,
    cmd: &Cmd,
    state: &RegionState,
    f: &ProxyForwarder,
    o: &TiFlashObserver,
    region: &Region,
)
    requires
        cmd.request.admin_request matches Some(r) && (r.cmd_type == AdminCmdType::PrepareMerge
            || r.cmd_type == AdminCmdType::CommitMerge || r.cmd_type
            == AdminCmdType::RollbackMerge) ==> state.modified_region is Some,
    ensures
        call_requires(command::plan_admin, (region_id, cmd, state)),
        call_requires(ProxyForwarder::post_exec_admin, (f, region, cmd, state)),
        call_requires(TiFlashObserver::post_exec_admin, (o, region, cmd, state)),
{
}

/// A column family of a snapshot that holds something has a name and files.
pub open spec fn is_complete(f: CfFile) -> bool {
    f.size@.len() > 0 && f.size@[0] != 0 ==> is_family(f.cf@) && f.file_paths@.len() > 0
}

/// Every snapshot whose column families are complete can be handled, whatever is remembered of
/// its region.
pub proof fn snapshots_can_be_handled(
    f: &mut ProxyForwarder,
    g: &mut ProxyForwarder,
    h: &mut ProxyForwarder,
    region: &Region,
    peer_id: u64,
    key: &SnapKey,
    snap: &Snapshot,
    recv: u64,
    received: Option<usize>,
)
    requires
        forall|i: int| 0 <= i < snap.cf_files@.len() ==> is_complete(#[trigger] snap.cf_files@[i]),
    ensures
        call_requires(snapshot::retrieve_sst_files, (snap,)),
        call_requires(
            ProxyForwarder::pre_apply_snapshot,
            (f, region, peer_id, key, Some(snap), recv),
        ),
        call_requires(
            ProxyForwarder::post_apply_snapshot,
            (g, region, peer_id, key, Some(snap)),
        ),
        call_requires(
            ProxyForwarder::post_apply_snapshot_received,
            (h, region, peer_id, key, snap, received),
        ),
        snapshot::snapshot_fits(snap.cf_files@),
{
    let v = snap.cf_files@;
    assert forall|i: int| 0 <= i < v.len() && snapshot::has_data(
        #[trigger] v[i],
    ) implies v[i].file_paths@.len() > 0 && ffi::WriteCmdCf::of_name(v[i].cf@) is Some by {
        assert(is_complete(v[i]));
    }
}

/// So can every snapshot at the observer, once its region is known.
pub proof fn snapshots_can_be_observed(
    f: &mut TiFlashObserver,
    g: &mut TiFlashObserver,
    h: &mut TiFlashObserver,
    region: &Region,
    peer_id: u64,
    key: &SnapKey,
    snap: &Snapshot,
    recv: u64,
    received: Option<usize>,
)
    requires
        forall|i: int| 0 <= i < snap.cf_files@.len() ==> is_complete(#[trigger] snap.cf_files@[i]),
        g@.cached.contains_key(region.id),
    ensures
        call_requires(
            TiFlashObserver::pre_apply_snapshot,
            (f, region, peer_id, key, Some(snap), recv),
        ),
        call_requires(
            TiFlashObserver::post_apply_snapshot,
            (g, region, peer_id, key, Some(snap)),
        ),
        call_requires(
            TiFlashObserver::post_apply_snapshot_received,
            (h, region, peer_id, key, snap, received),
        ),
{
    let v = snap.cf_files@;
    assert forall|i: int| 0 <= i < v.len() && snapshot::has_data(
        #[trigger] v[i],
    ) implies v[i].file_paths@.len() > 0 && ffi::WriteCmdCf::of_name(v[i].cf@) is Some by {
        assert(is_complete(v[i]));
    }
    assert(snapshot::snapshot_fits(v));
}

/// An engine store with engines takes every write that is newer than what its region applied and
/// that names column families by their numbers.
pub proof fn writes_can_be_applied(
    w: &mut EngineStoreServerWrap,
    cmds: &WriteCmdsView,
    header: RaftCmdHeader,
)
    requires
        w.engine_store_server.engines,
        known(*w, header.region_id).apply_state.applied_index < header.index,
        forall|i: int| 0 <= i < cmds@.len() ==> (#[trigger] cmds@[i]).cf <= 2,
    ensures
        call_requires(EngineStoreServerWrap::handle_write_raft_cmd, (w, cmds, header)),
{
}

/// An engine store with engines takes every administrative command that is newer than what its
/// region applied, where the versions of its region can be counted on and, for a merge, the
/// result is the one that the store comes to itself.
pub proof fn admin_commands_can_be_applied(
    w: &mut EngineStoreServerWrap,
    req: &AdminRequest,
    resp: &AdminResponse,
    header: RaftCmdHeader,
)
    requires
        w.engine_store_server.engines,
        ({
            let r = known(*w, header.region_id);
            let e = r.region.region_epoch;
            let source = req.commit_merge_source@;
            let counted = e is Some && e->0.version < u64::MAX && e->0.conf_ver < u64::MAX;
            &&& r.apply_state.applied_index < header.index
            &&& req.cmd_type == AdminCmdType::PrepareMerge ==> {
                &&& counted
                &&& req.prepare_merge is Some
                &&& resp.split_left@.epoch().conf_ver == e->0.conf_ver + 1
            }
            &&& req.cmd_type == AdminCmdType::RollbackMerge ==> counted
            &&& req.cmd_type == AdminCmdType::CommitMerge ==> {
                &&& counted
                &&& source.epoch().version < u64::MAX
                &&& w.engine_store_server@.regions.contains_key(source.id)
                &&& {
                    ||| source.end_key == r.region.start_key && r.region.start_key.len() > 0
                        && resp.split_left@.start_key == source.start_key
                    ||| source.start_key == r.region.end_key && r.region.end_key.len() > 0
                        && source.end_key != r.region.start_key && resp.split_left@.end_key
                        == source.end_key
                }
            }
        }),
    ensures
        call_requires(EngineStoreServerWrap::handle_admin_raft_cmd, (w, req, resp, header)),
{
}

/// An engine store that knows its proxy takes every snapshot, and with engines it can apply one
/// that was built and take every sorted file; a region that it has can be flushed, and one that
/// it has not where a test does not forbid it.
pub proof fn data_can_be_brought(
    a: &mut EngineStoreServerWrap,
    meta: Region,
    snaps: &Vec<SstData>,
    index: u64,
    term: u64,
    b: &mut EngineStoreServerWrap,
    snap: &mut PrehandledSnapshot,
    c: &mut EngineStoreServerWrap,
    header: RaftCmdHeader,
    d: &mut EngineStoreServerWrap,
    id: u64,
    hint: u8,
)
    requires
        a.maybe_proxy_helper is Some,
        b.engine_store_server.engines,
        snap.region is Some,
        c.maybe_proxy_helper is Some,
        c.engine_store_server.engines,
        d.engine_store_server.engines,
        !d.engine_store_server.mock_cfg.panic_when_flush_no_found,
    ensures
        call_requires(
            EngineStoreServerWrap::ffi_pre_handle_snapshot,
            (a, meta, snaps, index, term),
        ),
        call_requires(EngineStoreServerWrap::ffi_apply_pre_handled_snapshot, (b, snap)),
        call_requires(EngineStoreServerWrap::ffi_handle_ingest_sst, (c, snaps, header)),
        call_requires(EngineStoreServerWrap::ffi_try_flush_data, (d, id, hint, index, term)),
{
}

/// A log can be appended wherever its entries are not longer than can be encoded, and be read
/// wherever its end is not before its start.
pub proof fn logs_can_be_kept(
    engine: &PSEngine,
    ps: &mut MockPageStorage,
    region_id: u64,
    entries: &Vec<Entry>,
)
    requires
        forall|i: int|
            0 <= i < entries@.len() ==> raft_entry::encoded_len((#[trigger] entries@[i])@)
                <= u32::MAX,
    ensures
        call_requires(PSEngine::append, (engine, ps, region_id, entries)),
{
}

} // verus!
