//! The proxy's decisions, and the engine store's regions.

use std::collections::BTreeMap;

use raftstore_proxy::cached_region::CachedRegionInfo;
use raftstore_proxy::command::{
    admin_persists, after_flush, drain_region, finish_ingest, handle_ingest_sst_for_engine_store,
    plan_query, pre_exec_admin, pre_persist, write_persists, AdminPlan, ApplyCtxInfo, Cmd,
    FlushRequest, PreExecAdmin, QueryPlan, RaftCmdRequest, RaftCmdResponse, RegionState, Request, SstCheck,
    SstMeta, SstMetaInfo,
};
use raftstore_proxy::engine_store::{
    make_new_region, move_data_from, scan_bounds, EngineStoreServer, EngineStoreServerWrap,
    RegionRead, RegionStats,
};
use raftstore_proxy::fast_add_peer::{
    copy_data_from, copy_meta_from, general_get_apply_state, general_get_region_local_state,
    get_raft_local_state, validate_remote_peer_region, CopyMetaError,
};
use raftstore_proxy::ffi::{EngineStoreApplyRes, RaftCmdHeader, WriteCmdCf, WriteCmdType, WriteCmds};
use raftstore_proxy::forwarder::{
    PostApply, Prehandled, ProxyForwarder, RegionChangeEvent, SafeTsUpdate,
};
use raftstore_proxy::keys;
use raftstore_proxy::messages::{
    AdminCmdType, AdminRequest, AdminResponse, CompactLogRequest, HardState, Peer, PeerRole,
    PeerState, RaftApplyState, RaftLocalState, RaftTruncatedState, Region, RegionEpoch,
    RegionLocalState,
};
use raftstore_proxy::observer::{
    compose_snapshot, MessageType, MsgVerdict, ObserverKind, RaftMessage, StoreSizeInfo,
    TiFlashObserver, UseLeaderForRegion,
};
use raftstore_proxy::region::{
    delete_kv_in_mem, write_kv_in_mem, write_to_db_data_by_engine, DbWrite, MockRegion,
};
use raftstore_proxy::simple_store;
use raftstore_proxy::snapshot::{
    retrieve_sst_files, CfFile, PrehandleContext, PrehandleTask, SnapKey, Snapshot,
};
use raftstore_proxy::sst_reader::SstData;

type Disk = BTreeMap<(u8, Vec<u8>), Vec<u8>>;

fn v(s: &str) -> Vec<u8> {
    s.as_bytes().to_vec()
}

fn peer(id: u64, store_id: u64) -> Peer {
    Peer { id, store_id, role: PeerRole::Voter }
}

fn region(id: u64, start: &str, end: &str) -> Region {
    Region {
        id,
        start_key: v(start),
        end_key: v(end),
        region_epoch: Some(RegionEpoch { conf_ver: 1, version: 1 }),
        peers: vec![peer(11, 1), peer(12, 2)],
    }
}

fn flush(r: &mut MockRegion, disk: &mut Disk) {
    for w in write_to_db_data_by_engine(r) {
        match w {
            DbWrite::Put { cf, key, value } => {
                disk.insert((cf.into(), key), value);
            }
            DbWrite::Delete { cf, key } => {
                disk.remove(&(cf.into(), key));
            }
        }
    }
}

fn sst(uuid: u8, region_id: u64, cf: &str) -> SstMetaInfo {
    SstMetaInfo {
        total_bytes: 0,
        total_kvs: 0,
        meta: SstMeta { uuid: vec![uuid], region_id, cf_name: cf.to_string() },
    }
}

fn uuids(v: &[SstMetaInfo]) -> Vec<u8> {
    v.iter().map(|s| s.meta.uuid[0]).collect()
}

fn state(pending_remove: bool, modified_region: Option<Region>) -> RegionState {
    RegionState { peer_id: 1, pending_remove, modified_region }
}

fn cmd(requests: Vec<Request>, has_error: bool) -> Cmd {
    Cmd {
        index: 7,
        term: 6,
        request: RaftCmdRequest { requests, admin_request: None },
        response: RaftCmdResponse { has_error, admin_response: AdminResponse::default() },
    }
}

#[test]
fn a_flush_makes_writes_durable() {
    let mut disk = Disk::new();
    let mut r = MockRegion::new(region(1, "", ""));
    write_kv_in_mem(&mut r, 2, b"a", b"1");
    write_kv_in_mem(&mut r, 0, b"l", b"2");
    write_kv_in_mem(&mut r, 2, b"b", b"3");
    flush(&mut r, &mut disk);
    assert_eq!(disk.len(), 3);
    assert_eq!(disk[&(2, keys::data_key(b"a"))], v("1"));
    assert_eq!(disk[&(0, keys::data_key(b"l"))], v("2"));
    assert_eq!(r.data[2].len(), 2);
    delete_kv_in_mem(&mut r, 2, b"a");
    write_kv_in_mem(&mut r, 2, b"b", b"4");
    assert_eq!(r.data[2].len(), 1);
    flush(&mut r, &mut disk);
    assert_eq!(disk.len(), 2);
    assert_eq!(disk[&(2, keys::data_key(b"b"))], v("4"));
    assert!(r.pending_write[2].is_empty() && r.pending_delete[2].len() == 0);
    assert!(write_to_db_data_by_engine(&mut r).is_empty());
}

#[test]
fn a_key_that_was_written_again_and_deleted_leaves_the_engine() {
    let mut disk = Disk::new();
    let mut r = MockRegion::new(region(1, "", ""));
    write_kv_in_mem(&mut r, 2, b"a", b"1");
    flush(&mut r, &mut disk);
    write_kv_in_mem(&mut r, 2, b"a", b"2");
    delete_kv_in_mem(&mut r, 2, b"a");
    assert!(r.pending_write[2].is_empty() && r.pending_delete[2].len() == 1);
    flush(&mut r, &mut disk);
    assert!(r.data[2].is_empty());
    assert!(disk.is_empty());
}

#[test]
fn a_restart_scans_the_range_of_a_region() {
    let local = RegionLocalState { state: PeerState::Normal, region: region(1, "b", "d") };
    assert_eq!(scan_bounds(&local), (v("b"), v("d")));
    let local = RegionLocalState { state: PeerState::Normal, region: region(1, "", "") };
    assert_eq!(scan_bounds(&local), (v(""), v("")));
    // What the scan comes by is read back, without the data prefix.
    let mut server = EngineStoreServer::new(1, true);
    server.put_region(1, MockRegion::new(region(1, "", "")));
    let read = RegionRead {
        region_id: 1,
        apply_state: RaftApplyState { applied_index: 7, ..Default::default() },
        region_state: local,
        lock: vec![],
        write: vec![(keys::data_key(b"a"), v("1"))],
        default: vec![(keys::data_key(b"b"), v("2"))],
    };
    server.restore(&vec![read]);
    assert_eq!(server.get_mem(1, WriteCmdCf::Write, &v("a")), Some(&v("1")));
    assert_eq!(server.get_mem(1, WriteCmdCf::Default, &v("b")), Some(&v("2")));
    assert_eq!(server.get_region(1).unwrap().apply_state.applied_index, 7);
}

#[test]
fn regions_know_their_range_and_peers() {
    let r = region(1, "b", "d");
    assert!(r.contains_key(b"b") && r.contains_key(b"c") && !r.contains_key(b"d"));
    assert!(!r.contains_key(b"a") && region(1, "b", "").contains_key(b"z"));
    assert_eq!(r.find_peer(2), Some(peer(12, 2)));
    assert_eq!(r.find_peer(3), None);
    assert!(validate_remote_peer_region(&r, 1, 11) && !validate_remote_peer_region(&r, 1, 12));
    let made = make_new_region(Some(region(1, "b", "d")), Some(2));
    assert_eq!(made.peer, peer(12, 2));
    assert_eq!(make_new_region(None, None).region.id, 0);
    assert_eq!(Region::default().get_region_epoch(), RegionEpoch { conf_ver: 0, version: 0 });
}

fn wrap(compat: bool) -> EngineStoreServerWrap {
    let mut server = EngineStoreServer::new(1, true);
    server.proxy_compat = compat;
    EngineStoreServerWrap::new(server, None, 3)
}

fn put(w: &mut EngineStoreServerWrap, id: u64, index: u64, kvs: &[(&str, &str)]) -> Vec<DbWrite> {
    let mut cmds = WriteCmds::new();
    for (k, v) in kvs {
        cmds.push(k.as_bytes(), v.as_bytes(), WriteCmdType::Put, 2);
    }
    let (res, writes) = w.handle_write_raft_cmd(&cmds.gen_view(), RaftCmdHeader::new(id, index, 6));
    assert_eq!(res, EngineStoreApplyRes::NoPersist);
    writes
}

#[test]
fn writes_stay_in_memory_only_with_a_proxy_that_flushes() {
    let mut w = wrap(true);
    assert!(put(&mut w, 1, 7, &[("k", "v")]).is_empty());
    let mut w = wrap(false);
    let writes = put(&mut w, 1, 7, &[("k", "v")]);
    assert_eq!(writes.len(), 1);
    let r = w.engine_store_server.get_region(1).unwrap();
    assert_eq!((r.apply_state.applied_index, r.applied_term), (7, 6));
    let mut cmds = WriteCmds::new();
    cmds.push(b"k", b"", WriteCmdType::Del, 2);
    let (_, writes) = w.handle_write_raft_cmd(&cmds.gen_view(), RaftCmdHeader::new(1, 8, 6));
    assert!(matches!(&writes[0], DbWrite::Delete { key, .. } if key == &keys::data_key(b"k")));
    assert_eq!(w.engine_store_server.get_mem(1, WriteCmdCf::Default, &v("k")), None);
}

#[test]
fn the_last_write_of_a_key_is_read() {
    let mut w = wrap(true);
    let mut cmds = WriteCmds::new();
    cmds.push(b"a", b"1", WriteCmdType::Put, 2);
    cmds.push(b"b", b"2", WriteCmdType::Put, 2);
    cmds.push(b"a", b"3", WriteCmdType::Put, 2);
    cmds.push(b"b", b"", WriteCmdType::Del, 2);
    cmds.push(b"a", b"4", WriteCmdType::Put, 1);
    w.handle_write_raft_cmd(&cmds.gen_view(), RaftCmdHeader::new(1, 7, 6));
    let s = &w.engine_store_server;
    assert_eq!(s.get_mem(1, WriteCmdCf::Default, &v("a")), Some(&v("3")));
    assert_eq!(s.get_mem(1, WriteCmdCf::Default, &v("b")), None);
    assert_eq!(s.get_mem(1, WriteCmdCf::Write, &v("a")), Some(&v("4")));
    assert_eq!(s.get_mem(1, WriteCmdCf::Lock, &v("a")), None);
    assert_eq!(s.get_mem(2, WriteCmdCf::Lock, &v("a")), None);
}

#[test]
fn administrative_commands_change_their_region() {
    let mut w = wrap(true);
    w.engine_store_server.put_region(1, make_new_region(Some(region(1, "", "")), Some(1)));
    put(&mut w, 1, 7, &[("k", "v")]);
    let resp = AdminResponse::default();
    let mut req = AdminRequest::new(AdminCmdType::CompactLog);
    req.compact_log = CompactLogRequest { compact_index: 6, compact_term: 5 };
    let (res, writes) = w.handle_admin_raft_cmd(&req, &resp, RaftCmdHeader::new(1, 8, 6));
    assert_eq!((res, writes.len()), (EngineStoreApplyRes::Persist, 0));
    let r = w.engine_store_server.get_region(1).unwrap();
    assert_eq!(r.apply_state.truncated_state, RaftTruncatedState { index: 6, term: 5 });
    assert_eq!(r.apply_state.applied_index, 8);
    let req = AdminRequest::new(AdminCmdType::RollbackMerge);
    let (_, writes) = w.handle_admin_raft_cmd(&req, &resp, RaftCmdHeader::new(1, 9, 6));
    assert_eq!(writes.len(), 1);
    let r = w.engine_store_server.get_region(1).unwrap();
    assert_eq!(r.region.region_epoch, Some(RegionEpoch { conf_ver: 1, version: 2 }));
    // A peer that is no longer there takes the region away; another change keeps it.
    let mut resp = AdminResponse::default();
    resp.change_peer = region(1, "", "");
    let req = AdminRequest::new(AdminCmdType::ChangePeer);
    w.handle_admin_raft_cmd(&req, &resp, RaftCmdHeader::new(1, 10, 6));
    assert!(w.engine_store_server.has_region(1));
    resp.change_peer.peers.remove(0);
    w.handle_admin_raft_cmd(&req, &resp, RaftCmdHeader::new(1, 11, 6));
    assert!(!w.engine_store_server.has_region(1));
    // Any other command moves the index on, and a region that is not known is made.
    let req = AdminRequest::new(AdminCmdType::PrepareFlashback);
    let (res, _) = w.handle_admin_raft_cmd(&req, &AdminResponse::default(), RaftCmdHeader::new(5, 3, 2));
    assert_eq!(res, EngineStoreApplyRes::Persist);
    let r = w.engine_store_server.get_region(5).unwrap();
    assert_eq!((r.apply_state.applied_index, r.applied_term), (3, 2));
    w.ffi_handle_destroy(5);
    assert!(!w.engine_store_server.has_region(5));
    assert_eq!(w.ffi_try_flush_data(5, 0, 4, 2).0, 1);
    assert_eq!(w.ffi_need_flush_data(5), 1);
    w.ffi_atomic_update_proxy(8);
    assert_eq!((w.maybe_proxy_helper, w.cluster_ptr), (Some(8), 3));
}

#[test]
fn a_split_divides_keys_and_a_merge_joins_them() {
    let mut w = wrap(true);
    w.engine_store_server.put_region(1, make_new_region(Some(region(1, "", "")), Some(1)));
    put(&mut w, 1, 7, &[("a", "1"), ("m", "2"), ("z", "3")]);
    let mut resp = AdminResponse::default();
    resp.splits = vec![region(2, "", "m"), region(1, "m", "")];
    let req = AdminRequest::new(AdminCmdType::BatchSplit);
    let (res, writes) = w.handle_admin_raft_cmd(&req, &resp, RaftCmdHeader::new(1, 8, 6));
    assert_eq!(res, EngineStoreApplyRes::Persist);
    // Only the region that was split is flushed, with what it has kept pending.
    assert_eq!(writes.len(), 3);
    let s = &w.engine_store_server;
    assert_eq!(s.get_region(2).unwrap().data[2].len(), 1);
    assert_eq!(s.get_region(1).unwrap().data[2].len(), 2);
    assert_eq!(s.get_mem(1, WriteCmdCf::Default, &v("m")), Some(&v("2")));
    assert_eq!(s.get_region(2).unwrap().peer, peer(11, 1));
    // A split does not move the index on.
    assert_eq!(s.get_region(1).unwrap().apply_state.applied_index, 7);

    let mut req = AdminRequest::new(AdminCmdType::CommitMerge);
    req.commit_merge_source = region(2, "", "m");
    let mut resp = AdminResponse::default();
    resp.split_left = region(1, "", "");
    w.handle_admin_raft_cmd(&req, &resp, RaftCmdHeader::new(1, 9, 6));
    let s = &w.engine_store_server;
    assert!(!s.has_region(2));
    let r = s.get_region(1).unwrap();
    assert_eq!(r.data[2].len(), 3);
    assert!(r.region.start_key.is_empty() && r.region.end_key.is_empty());
    assert_eq!(r.region.get_region_epoch().version, 2);
}

#[test]
fn moved_data_leaves_out_the_keys_of_the_store_itself() {
    let mut s = EngineStoreServer::new(1, true);
    let mut r = MockRegion::new(region(1, "", ""));
    write_kv_in_mem(&mut r, 2, b"a", b"1");
    write_kv_in_mem(&mut r, 2, &keys::store_ident_key(), b"2");
    write_kv_in_mem(&mut r, 2, &keys::prepare_bootstrap_key(), b"3");
    write_kv_in_mem(&mut r, 1, b"w", b"4");
    s.put_region(1, r);
    s.put_region(2, MockRegion::new(region(2, "", "b")));
    s.put_region(3, MockRegion::new(region(3, "b", "")));
    move_data_from(&mut s, 1, &[2, 3]);
    assert_eq!(s.get_region(1).unwrap().data[2].len(), 0);
    assert_eq!(s.get_region(1).unwrap().data[1].len(), 0);
    assert_eq!(s.get_region(2).unwrap().data[2].len(), 1);
    assert_eq!(s.get_region(2).unwrap().data[1].len(), 0);
    assert_eq!(s.get_region(3).unwrap().data[2].len(), 0);
}

#[test]
fn snapshots_are_built_before_they_are_applied() {
    let mut w = wrap(true);
    w.ffi_atomic_update_proxy(1);
    let files = vec![
        SstData { type_: WriteCmdCf::Default, kvs: vec![(v("k"), v("1"))] },
        SstData { type_: WriteCmdCf::Write, kvs: vec![(v("k"), v("2"))] },
    ];
    let mut snap = w.ffi_pre_handle_snapshot(region(4, "", ""), &files, 20, 9);
    assert!(!w.engine_store_server.has_region(4));
    assert_eq!(w.engine_store_server.region_states[&4].pre_handle_count, 1);
    let writes = w.ffi_apply_pre_handled_snapshot(&mut snap);
    assert_eq!(writes.len(), 2);
    let r = w.engine_store_server.get_region(4).unwrap();
    assert_eq!((r.apply_state.applied_index, r.applied_term), (20, 9));
    assert_eq!(r.apply_state.truncated_state, RaftTruncatedState { index: 20, term: 9 });
    w.engine_store_server.mutate_region_states(4, |s: RegionStats| RegionStats {
        pre_handle_count: s.pre_handle_count + 5,
        ..s
    });
    assert_eq!(w.engine_store_server.region_states[&4].pre_handle_count, 6);
    assert_eq!(w.engine_store_server.write_to_db_by_region_id(4).len(), 0);
}

#[test]
fn a_simple_store_puts_at_once() {
    let mut w = simple_store::EngineStoreServerWrap::new(simple_store::EngineStoreServer::new(1), None);
    assert_eq!(w.handle_admin_raft_cmd(RaftCmdHeader::new(1, 6, 5)), EngineStoreApplyRes::Persist);
    let mut cmds = WriteCmds::new();
    cmds.push(b"k", b"1", WriteCmdType::Put, 1);
    cmds.push(b"d", b"", WriteCmdType::Del, 1);
    let (res, writes) = w.handle_write_raft_cmd(&cmds.gen_view(), RaftCmdHeader::new(1, 7, 5));
    assert_eq!(res, EngineStoreApplyRes::NoPersist);
    assert_eq!(writes.len(), 1);
    assert!(matches!(&writes[0],
        DbWrite::Put { cf: WriteCmdCf::Default, key, value } if key == &v("k") && value == &v("1")));
    assert_eq!(w.engine_store_server.get_mem(1, WriteCmdCf::Write, b"k"), Some(&v("1")));
    // Writes that are older than a snapshot are left out.
    w.ffi_atomic_update_proxy(1);
    let files = vec![SstData { type_: WriteCmdCf::Write, kvs: vec![(v("s"), v("2"))] }];
    w.ffi_pre_handle_snapshot(region(1, "", ""), &files, 20, 9);
    assert_eq!(w.engine_store_server.get_mem(1, WriteCmdCf::Write, b"k"), None);
    let (_, writes) = w.handle_write_raft_cmd(&cmds.gen_view(), RaftCmdHeader::new(1, 20, 9));
    assert!(writes.is_empty());
    assert_eq!(w.engine_store_server.get_mem(1, WriteCmdCf::Write, b"k"), None);
    assert_eq!(w.engine_store_server.get_mem(1, WriteCmdCf::Write, b"s"), Some(&v("2")));
    w.ffi_handle_destroy(1);
    assert_eq!(w.engine_store_server.get_mem(1, WriteCmdCf::Write, b"s"), None);
}

#[test]
fn requests_become_writes_or_files() {
    let reqs = vec![
        Request::Put { cf: "lock".to_string(), key: v("a"), value: v("1") },
        Request::Get,
        Request::DeleteRange,
        Request::Delete { cf: "".to_string(), key: v("b") },
        Request::Snap,
    ];
    let c = cmd(reqs, false);
    match plan_query(3, &c) {
        QueryPlan::Write { cmds, header } => {
            assert_eq!(header, RaftCmdHeader::new(3, 7, 6));
            let view = cmds.gen_view();
            assert_eq!(view.len(), 2);
            assert_eq!((view.key(0), view.cf(0)), (&b"a"[..], 0));
            assert_eq!((view.key(1), view.val(1), view.cf(1)), (&b"b"[..], &b""[..], 2));
            assert_eq!(view.cmd_type(1), WriteCmdType::Del);
        }
        _ => unreachable!(),
    }
    let c = cmd(vec![Request::IngestSst { sst: sst(1, 3, "write").meta }], false);
    match plan_query(3, &c) {
        QueryPlan::Ingest { ssts, header } => {
            assert_eq!(uuids(&ssts), vec![1]);
            assert_eq!(header.index, 7);
        }
        _ => unreachable!(),
    }
    // A command that failed is passed on without its writes, whatever it held.
    let c = cmd(vec![Request::Invalid], true);
    match plan_query(3, &c) {
        QueryPlan::Write { cmds, .. } => assert_eq!(cmds.len(), 0),
        _ => unreachable!(),
    }
}

#[test]
fn ingestion_stops_at_the_first_bad_file() {
    let ssts = vec![sst(1, 3, "default"), sst(2, 3, "write"), sst(3, 3, "default")];
    let check = |valid, path: &str| SstCheck { valid, path: path.to_string() };
    let all = vec![check(true, "a"), check(true, "b"), check(true, "c")];
    let r = handle_ingest_sst_for_engine_store(&ssts, &all);
    assert_eq!(
        r,
        vec![
            ("a".to_string(), WriteCmdCf::Default),
            ("b".to_string(), WriteCmdCf::Write),
            ("c".to_string(), WriteCmdCf::Default)
        ]
    );
    let some = vec![check(true, "a"), check(false, "b"), check(true, "c")];
    assert_eq!(handle_ingest_sst_for_engine_store(&ssts, &some).len(), 1);
}

#[test]
fn no_file_is_lost() {
    let mut kept = vec![sst(1, 3, "write"), sst(2, 4, "write"), sst(3, 3, "write")];
    let mut ctx = ApplyCtxInfo {
        pending_handle_ssts: Some(vec![sst(9, 3, "write")]),
        delete_ssts: vec![sst(0, 7, "write")],
    };
    let s = state(false, None);
    assert!(!finish_ingest(&mut kept, &mut ctx, 3, EngineStoreApplyRes::NoPersist, &s));
    assert_eq!(uuids(&kept), vec![1, 2, 3, 9]);
    assert_eq!(uuids(&ctx.delete_ssts), vec![0]);
    ctx.pending_handle_ssts = Some(vec![sst(8, 3, "write")]);
    assert!(finish_ingest(&mut kept, &mut ctx, 3, EngineStoreApplyRes::Persist, &s));
    assert_eq!(uuids(&kept), vec![2]);
    assert_eq!(uuids(&ctx.delete_ssts), vec![0, 1, 3, 9, 8]);
    assert_eq!(uuids(&ctx.pending_handle_ssts.as_ref().unwrap()), Vec::<u8>::new());
    ctx.pending_handle_ssts = None;
    let leaving = state(true, None);
    assert!(!finish_ingest(&mut kept, &mut ctx, 4, EngineStoreApplyRes::NotFound, &leaving));
    assert_eq!(uuids(&kept), vec![2]);
    assert_eq!(uuids(&drain_region(&mut kept, 4)), vec![2]);
    assert!(kept.is_empty());
}

#[test]
fn answers_decide_what_is_made_durable() {
    let (stays, leaves) = (state(false, None), state(true, None));
    for (res, write, admin) in [
        (EngineStoreApplyRes::NoPersist, false, false),
        (EngineStoreApplyRes::Persist, true, true),
        (EngineStoreApplyRes::NotFound, false, true),
    ] {
        assert_eq!(write_persists(res, &stays), write);
        assert_eq!(admin_persists(res, &stays), admin);
        assert!(!write_persists(res, &leaves) && !admin_persists(res, &leaves));
    }
    let flush = FlushRequest {
        region_id: 3,
        force_persist: false,
        try_until_succeed: false,
        index: 8,
        term: 6,
    };
    assert_eq!(pre_exec_admin(3, AdminCmdType::CompactLog, 8, 6), PreExecAdmin::TryFlush(flush));
    let compact = AdminRequest::new(AdminCmdType::CompactLog);
    let o = TiFlashObserver::new(2, 4);
    assert_eq!(o.pre_exec_admin(&region(3, "", ""), &compact, 8, 6), PreExecAdmin::TryFlush(flush));
    let f = ProxyForwarder::new(2, true, true);
    assert_eq!(f.pre_exec_admin(&region(3, "", ""), &compact, 8, 6), PreExecAdmin::TryFlush(flush));
    assert!(after_flush(false) && !after_flush(true));
    for t in [AdminCmdType::ComputeHash, AdminCmdType::VerifyHash, AdminCmdType::TransferLeader] {
        assert_eq!(pre_exec_admin(3, t, 8, 6), PreExecAdmin::Filter(true));
    }
    assert_eq!(pre_exec_admin(3, AdminCmdType::BatchSplit, 8, 6), PreExecAdmin::Filter(false));
    let with = |t| RaftCmdRequest { requests: vec![], admin_request: Some(AdminRequest::new(t)) };
    assert!(pre_persist(true, None));
    assert!(pre_persist(false, Some(&with(AdminCmdType::RollbackMerge))));
    assert!(pre_persist(false, Some(&with(AdminCmdType::CommitMerge))));
    assert!(!pre_persist(false, Some(&with(AdminCmdType::PrepareMerge))));
    assert!(!pre_persist(false, Some(&RaftCmdRequest { requests: vec![], admin_request: None })));
}

#[test]
fn merge_steps_carry_the_region_that_they_changed() {
    let f = ProxyForwarder::new(1, false, false);
    let mut c = cmd(vec![], false);
    let mut merge = AdminRequest::new(AdminCmdType::CommitMerge);
    merge.commit_merge_source = region(9, "b", "c");
    c.request.admin_request = Some(merge);
    let s = state(false, Some(region(8, "a", "b")));
    match f.post_exec_admin(&region(3, "", ""), &c, &s) {
        AdminPlan::Admin { request, response, header } => {
            assert_eq!(request.cmd_type, AdminCmdType::CommitMerge);
            assert_eq!(request.commit_merge_source.id, 9);
            assert_eq!(response.split_left.id, 8);
            assert_eq!(header, RaftCmdHeader::new(3, 7, 6));
        }
        _ => unreachable!(),
    }
    // A command without an administrative one hands over the invalid kind.
    match TiFlashObserver::new(2, 4).post_exec_admin(&region(3, "", ""), &cmd(vec![], false), &s) {
        AdminPlan::Admin { request, .. } => {
            assert_eq!(request.cmd_type, AdminCmdType::InvalidAdmin);
            assert_eq!(request.commit_merge_source.id, 0);
        }
        _ => unreachable!(),
    }
    c.response.has_error = true;
    let plan = f.post_exec_admin(&region(3, "", ""), &c, &state(false, None));
    assert!(matches!(plan, AdminPlan::Failed { header } if header.region_id == 3));
    assert!(f.post_exec_admin_done(&plan, EngineStoreApplyRes::Persist, &s));
    assert!(!f.post_exec_admin_done(&plan, EngineStoreApplyRes::NotFound, &s));
    assert!(!f.pre_write_apply_state());
    assert!(f.on_raft_message(false) && !f.on_raft_message(true));
    assert_eq!(
        f.on_update_safe_ts(1, 2, 3),
        SafeTsUpdate { region_id: 1, self_safe_ts: 2, leader_safe_ts: 3 }
    );
}

#[test]
fn files_of_a_snapshot() {
    let file = |cf: &str, size: Vec<u64>, paths: &[&str]| CfFile {
        cf: cf.to_string(),
        size,
        file_paths: paths.iter().map(|p| p.to_string()).collect(),
    };
    let snap = Snapshot {
        cf_files: vec![
            file("default", vec![10, 20], &["d1", "d2"]),
            file("lock", vec![0], &["l"]),
            file("unknown", vec![], &[]),
            file("write", vec![3], &["w"]),
        ],
    };
    assert_eq!(
        retrieve_sst_files(&snap),
        vec![
            ("d1".to_string(), WriteCmdCf::Default),
            ("d2".to_string(), WriteCmdCf::Default),
            ("w".to_string(), WriteCmdCf::Write)
        ]
    );
    let mut ctx = PrehandleContext::new();
    let (k1, k2) = (SnapKey::new(1, 2, 3), SnapKey::new(1, 2, 4));
    ctx.insert(k1, PrehandleTask::new(1, 5));
    ctx.insert(k2, PrehandleTask::new(2, 5));
    ctx.insert(k1, PrehandleTask::new(3, 5));
    assert!(ctx.contains_key(k1) && ctx.contains_key(k2));
    assert_eq!(ctx.remove(k1), Some(PrehandleTask::new(3, 5)));
    assert!(!ctx.contains_key(k1) && ctx.contains_key(k2));
    assert_eq!(ctx.remove(k1), None);
    assert_eq!(ctx.remove(k2), Some(PrehandleTask::new(2, 5)));
}

#[test]
fn the_first_snapshot_on_the_fast_way_is_not_handed_over() {
    let mut f = ProxyForwarder::new(1, true, true);
    let r = region(3, "", "");
    f.on_role_change(&r, true);
    assert_eq!(f.cached.get_cached_region_info(3), None);
    f.on_role_change(&r, false);
    assert!(f.cached.get_cached_region_info(3).unwrap().replicated_or_created);
    let key = SnapKey::new(3, 1, 1);
    let snap = Snapshot { cf_files: vec![] };
    assert!(f.pre_apply_snapshot(&r, 11, &key, Some(&snap), 1).is_none());
    assert!(matches!(f.post_apply_snapshot(&r, 11, &key, Some(&snap)), PostApply::Finished));
    assert!(f.cached.get_cached_region_info(3).unwrap().inited);
    // The next one is.
    assert!(f.pre_apply_snapshot(&r, 11, &key, None, 1).is_none());
    assert!(f.pre_apply_snapshot(&r, 11, &key, Some(&snap), 1).is_some());
    assert!(matches!(f.post_apply_snapshot(&r, 11, &key, None), PostApply::Finished));
    assert!(matches!(f.post_apply_snapshot(&r, 11, &key, Some(&snap)), PostApply::AwaitTask(_)));
    assert!(matches!(f.post_apply_snapshot(&r, 11, &key, Some(&snap)), PostApply::PreHandle(_)));
    assert_eq!(f.on_region_changed(&r, RegionChangeEvent::Update), None);
    assert!(f.cached.get_cached_region_info(3).is_some());
    assert_eq!(f.on_region_changed(&r, RegionChangeEvent::Destroy), Some(3));
    assert!(f.cached.get_cached_region_info(3).is_none());
    // Without a background nothing is started.
    let mut f = ProxyForwarder::new(1, false, false);
    assert!(f.pre_apply_snapshot(&r, 11, &key, Some(&snap), 1).is_none());
    assert_eq!(f.pending_applies_count, 0);
}

fn message(msg_type: MessageType) -> RaftMessage {
    RaftMessage {
        region_id: 3,
        from_peer: peer(11, 1),
        to_peer: peer(12, 2),
        msg_type,
        index: 9,
        term: 6,
        commit: 0,
    }
}

#[test]
fn appends_are_answered_with_a_snapshot_once_the_peer_is_there() {
    let mut o = TiFlashObserver::new(2, 4);
    assert_eq!(o.snap_handle_pool_size, 4);
    let append = message(MessageType::MsgAppend);
    assert_eq!(o.should_skip_raft_message(&message(MessageType::MsgHeartbeat)), MsgVerdict::Skip(false));
    assert_eq!(o.should_skip_raft_message(&message(MessageType::MsgSnapshot)), MsgVerdict::Skip(false));
    assert!(o.cached_region_info.get_cached_region_info(3).is_none());
    assert_eq!(o.should_skip_raft_message(&append), MsgVerdict::Skip(false));
    assert_eq!(o.cached_region_info.get_cached_region_info(3), Some(CachedRegionInfo::default()));
    assert_eq!(o.is_first_msg_append(&append), MsgVerdict::Skip(false));
    let _ = o.access_cached_region_info_mut(3, |i: Option<CachedRegionInfo>| {
        i.map(|x| CachedRegionInfo { inited: true, ..x })
    });
    assert_eq!(o.is_first_msg_append(&append), MsgVerdict::Skip(true));
    o.on_peer_created(3);
    assert_eq!(
        o.is_first_msg_append(&append),
        MsgVerdict::SendSnapshot(UseLeaderForRegion { region_id: 3 })
    );
    let apply = RaftApplyState { applied_index: 20, commit_term: 5, ..Default::default() };
    let local = RegionLocalState { state: PeerState::Normal, region: region(3, "a", "b") };
    let s = compose_snapshot(&append, &apply, &local);
    assert_eq!(s.key, SnapKey::new(3, 5, 20));
    assert_eq!((s.index, s.term, s.version, s.file_size), (9, 6, 2, 0));
    assert_eq!((s.voters, s.learners), (vec![11], vec![12]));
    assert_eq!(s.msg_type, MessageType::MsgSnapshot);
    assert_eq!(s.region_epoch, RegionEpoch { conf_ver: 1, version: 1 });
}

#[test]
fn the_observer_registers_for_everything() {
    let o = TiFlashObserver::new(2, 4);
    let mut registry = vec![];
    o.register_to(&mut registry);
    assert_eq!(
        registry,
        vec![
            (0, ObserverKind::Admin),
            (0, ObserverKind::Query),
            (0, ObserverKind::ApplySnapshot),
            (0, ObserverKind::RegionChange),
            (0, ObserverKind::PdTask),
            (0, ObserverKind::UpdateSafeTs)
        ]
    );
    let mut size = None;
    o.on_compute_engine_size(wrap(true).ffi_handle_compute_store_stats(), &mut size);
    assert_eq!(size, Some(StoreSizeInfo { capacity: 444444, used: 111111, avail: 333333 }));
    assert_eq!(o.on_region_changed(&region(3, "", ""), RegionChangeEvent::Destroy), Some(3));
    assert_eq!(o.on_empty_cmd(&region(3, "", ""), 4, 5), RaftCmdHeader::new(3, 4, 5));
}

#[test]
fn the_observer_goes_on_with_snapshots() {
    let mut o = TiFlashObserver::new(2, 4);
    let r = region(3, "", "");
    let key = SnapKey::new(3, 1, 1);
    let snap = Snapshot { cf_files: vec![] };
    o.on_peer_created(3);
    assert!(o.pre_apply_snapshot(&r, 11, &key, Some(&snap), 5).is_some());
    assert_eq!(o.pending_applies_count, 1);
    assert!(o.should_pre_apply_snapshot());
    let first = o.post_apply_snapshot(&r, 11, &key, Some(&snap));
    assert!(matches!(first, PostApply::AwaitTask(t) if t == PrehandleTask::new(5, 11)));
    assert!(o.cached_region_info.get_cached_region_info(3).unwrap().inited);
    match o.post_apply_snapshot_received(&r, 11, &key, &snap, None) {
        Prehandled::PreHandle(p) => assert_eq!((p.peer_id, p.index, p.term), (11, 1, 1)),
        Prehandled::Apply(_) => unreachable!(),
    }
    assert_eq!(o.pending_applies_count, 0);
    // A region that counts as initialized has nothing left to do.
    assert!(matches!(o.post_apply_snapshot(&r, 11, &key, Some(&snap)), PostApply::Finished));
}

#[test]
fn states_are_copied_where_they_are_asked_for() {
    let source = MockRegion::new(region(3, "", ""));
    let mut target = MockRegion::new(region(3, "", ""));
    let apply = RaftApplyState { applied_index: 20, ..Default::default() };
    let raft = RaftLocalState {
        hard_state: HardState { term: 1, vote: 2, commit: 3 },
        last_index: 4,
    };
    let c = copy_meta_from(
        &source, &mut target, region(3, "a", "b"), true, true, true, Some(apply), Some(raft),
    );
    assert!(c.written && c.result == Ok(()));
    assert_eq!(c.region_state.unwrap().0, keys::region_state_key(3));
    assert_eq!(c.apply_state.unwrap(), (keys::apply_state_key(3), apply));
    assert_eq!(c.raft_state, Some(raft));
    assert_eq!(target.apply_state, apply);
    let c = copy_meta_from(
        &source, &mut target, region(3, "a", "b"), true, true, true, None, Some(raft),
    );
    assert!(!c.written);
    assert_eq!(c.result, Err(CopyMetaError::BadRaftApplyState));
    let c = copy_meta_from(
        &source, &mut target, region(3, "a", "b"), false, false, true, None, None,
    );
    assert!(c.written && c.region_state.is_none() && c.apply_state.is_none());
    assert_eq!(c.result, Err(CopyMetaError::BadRaftLocalState));
    let mut from = MockRegion::new(region(3, "", ""));
    write_kv_in_mem(&mut from, 0, b"l", b"1");
    write_kv_in_mem(&mut from, 2, b"d", b"2");
    copy_data_from(&from, &mut target);
    assert_eq!((target.data[0].len(), target.data[1].len(), target.data[2].len()), (1, 0, 1));
    assert_eq!(target.pending_write[2].get(b"d"), Some(&v("2")));
}

#[test]
fn states_that_cannot_be_read_count_as_absent() {
    assert_eq!(general_get_apply_state(Ok(Some(RaftApplyState::default()))), Some(RaftApplyState::default()));
    assert_eq!(general_get_apply_state(Ok(None)), None);
    assert_eq!(general_get_apply_state(Err("broken".to_string())), None);
    assert!(general_get_region_local_state(Err("broken".to_string())).is_none());
    let local = RegionLocalState { state: PeerState::Normal, region: region(3, "", "") };
    let read = general_get_region_local_state(Ok(Some(local))).unwrap();
    assert_eq!((read.state, read.region.id), (PeerState::Normal, 3));
    assert!(get_raft_local_state(Ok(None)).is_none());
}
