//! A small cluster in memory: every node has a forwarder, an engine store and an engine below
//! it, and applies the same commands.

use std::collections::BTreeMap;
use std::collections::HashMap;

use raftstore_proxy::command::{
    handle_ingest_sst_for_engine_store, AdminPlan, ApplyCtxInfo, Cmd, PreExecAdmin, QueryPlan,
    RaftCmdRequest, RaftCmdResponse, RegionState, Request, SstCheck, SstMeta, SstMetaInfo,
};
use raftstore_proxy::bootstrap::{
    initial_region, prepare_bootstrap_cluster_with, MetaWrite, StoreMeta,
};
use raftstore_proxy::command::after_flush;
use raftstore_proxy::engine_store::{
    make_new_region, scan_bounds, EngineStoreServer, EngineStoreServerWrap, RegionRead, RegionStats,
};
use raftstore_proxy::fast_add_peer::{
    attempt_delay, attempts_used_up, fast_add_peer_attempt, fast_add_peer_copied,
    failed_add_peer_res, FastAddPeerRes, FastAddPeerStatus, FastAddPeerStep,
};
use raftstore_proxy::ffi::{EngineStoreApplyRes, RaftCmdHeader, WriteCmdCf, WriteCmdType, WriteCmds};
use raftstore_proxy::forwarder::{PostApply, Prehandled, ProxyForwarder, RegionChangeEvent};
use raftstore_proxy::keys;
use raftstore_proxy::messages::{
    AdminCmdType, AdminRequest, AdminResponse, CompactLogRequest, Peer, PeerRole, PeerState,
    RaftApplyState, RaftTruncatedState, Region, RegionEpoch, RegionLocalState,
};
use raftstore_proxy::observer::TiFlashFFIHub;
use raftstore_proxy::region::{write_kv_in_mem, DbWrite, MockRegion};
use raftstore_proxy::router::{ApplyRouterHelper, ApplyTask, ProxyApplyRouterHelper};
use raftstore_proxy::snapshot::{CfFile, SnapKey, Snapshot};
use raftstore_proxy::sst_reader::SstData;

type Disk = BTreeMap<(u8, Vec<u8>), Vec<u8>>;

fn new_peer(store_id: u64, id: u64) -> Peer {
    Peer { id, store_id, role: PeerRole::Voter }
}

fn new_learner_peer(store_id: u64, id: u64) -> Peer {
    Peer { id, store_id, role: PeerRole::Learner }
}

struct Node {
    id: u64,
    wrap: EngineStoreServerWrap,
    forwarder: ProxyForwarder,
    disk: Disk,
    /// How far raft has applied each region, in memory and on disk.
    applied: HashMap<u64, RaftApplyState>,
    disk_applied: HashMap<u64, RaftApplyState>,
    disk_region: HashMap<u64, RegionLocalState>,
    /// Files of commands that may be deleted.
    deleted_ssts: Vec<Vec<u8>>,
    /// What the engine store answers to a flush, where the test decides it.
    flush_answer: Option<u8>,
    /// The engine store keeps ingested files in memory.
    ingest_in_memory: bool,
    /// The apply state is written with each command.
    write_apply_state: bool,
    /// How many tasks cut off a log.
    compact_tasks: u64,
}

fn apply_writes(disk: &mut Disk, writes: Vec<DbWrite>) {
    for w in writes {
        match w {
            DbWrite::Put { cf, key, value } => {
                disk.insert((cf.into(), key), value);
            }
            DbWrite::Delete { cf, key } => {
                disk.remove(&(cf.into(), key));
            }
        }
    }
}

fn same_region(a: &Region, b: &Region) -> bool {
    a.id == b.id
        && a.start_key == b.start_key
        && a.end_key == b.end_key
        && a.region_epoch == b.region_epoch
        && a.peers == b.peers
}

impl Node {
    fn new(id: u64) -> Node {
        let mut server = EngineStoreServer::new(id, true);
        server.proxy_compat = true;
        Node {
            id,
            wrap: EngineStoreServerWrap::new(server, Some(1), 1),
            forwarder: ProxyForwarder::new(id, true, true),
            disk: BTreeMap::new(),
            applied: HashMap::new(),
            disk_applied: HashMap::new(),
            disk_region: HashMap::new(),
            deleted_ssts: vec![],
            flush_answer: None,
            ingest_in_memory: false,
            write_apply_state: false,
            compact_tasks: 0,
        }
    }

    fn server(&self) -> &EngineStoreServer {
        &self.wrap.engine_store_server
    }

    fn store_region(&self, id: u64) -> &MockRegion {
        self.server().get_region(id).unwrap()
    }

    /// Registers a region that begins at index 5.
    fn bootstrap(&mut self, region: &Region) {
        let state = RaftApplyState {
            applied_index: 5,
            last_commit_index: 0,
            commit_index: 0,
            commit_term: 0,
            truncated_state: RaftTruncatedState { index: 5, term: 5 },
        };
        self.applied.insert(region.id, state);
        self.disk_applied.insert(region.id, state);
        let local = RegionLocalState { state: PeerState::Normal, region: region.clone() };
        self.disk_region.insert(region.id, local);
        if !self.server().has_region(region.id) {
            let r = make_new_region(Some(region.clone()), Some(self.id));
            self.wrap.engine_store_server.put_region(region.id, r);
        }
    }

    fn finish(&mut self, region: &Region, index: u64, persist: bool) {
        let state = self.applied.get_mut(&region.id).unwrap();
        state.applied_index = index;
        let state = *state;
        if persist {
            self.disk_applied.insert(region.id, state);
            let local = RegionLocalState { state: PeerState::Normal, region: region.clone() };
            self.disk_region.insert(region.id, local);
        }
        if self.forwarder.pre_write_apply_state() || self.write_apply_state {
            self.disk_applied.insert(region.id, state);
        }
    }

    fn empty_cmd(&mut self, region: &Region, index: u64) {
        let header = self.forwarder.on_empty_cmd(region, index, 6);
        let cmds = WriteCmds::new();
        let (res, writes) = self.wrap.handle_write_raft_cmd(&cmds.gen_view(), header);
        assert_eq!(res, EngineStoreApplyRes::NoPersist);
        apply_writes(&mut self.disk, writes);
        self.finish(region, index, false);
    }

    fn query(&mut self, region: &Region, index: u64, reqs: Vec<Request>, files: &[SstFile]) {
        let state = region_state(None);
        let cmd = query_cmd(index, reqs);
        let mut ctx = ApplyCtxInfo {
            pending_handle_ssts: Some(
                files
                    .iter()
                    .map(|f| SstMetaInfo { total_bytes: 0, total_kvs: 0, meta: f.meta.clone() })
                    .collect(),
            ),
            delete_ssts: vec![],
        };
        let plan = self.forwarder.post_exec_query(region, &cmd);
        let (res, writes) = match &plan {
            QueryPlan::Write { cmds, header } => {
                self.wrap.handle_write_raft_cmd(&cmds.gen_view(), *header)
            }
            QueryPlan::Ingest { ssts, header } => {
                let checks: Vec<SstCheck> = files
                    .iter()
                    .map(|f| SstCheck { valid: f.epoch == region.region_epoch, path: f.path.clone() })
                    .collect();
                let paths = handle_ingest_sst_for_engine_store(ssts, &checks);
                let mut data = vec![];
                for (path, cf) in &paths {
                    let f = files.iter().find(|f| &f.path == path).unwrap();
                    data.push(SstData { type_: *cf, kvs: f.kvs.clone() });
                }
                if self.ingest_in_memory {
                    let mut cmds = WriteCmds::new();
                    for d in &data {
                        for (k, v) in &d.kvs {
                            cmds.push(k, v, WriteCmdType::Put, d.type_.into());
                        }
                    }
                    let (_, writes) = self.wrap.handle_write_raft_cmd(&cmds.gen_view(), *header);
                    assert!(writes.is_empty());
                    (EngineStoreApplyRes::NoPersist, writes)
                } else {
                    self.wrap.ffi_handle_ingest_sst(&data, *header)
                }
            }
        };
        apply_writes(&mut self.disk, writes);
        let persist = self.forwarder.post_exec_query_done(region, &plan, res, &state, &mut ctx);
        for sst in ctx.delete_ssts {
            self.deleted_ssts.push(sst.meta.uuid);
        }
        self.finish(region, index, persist);
    }

    /// Applies an administrative command; false where it was left out.
    fn admin(
        &mut self,
        region: &Region,
        index: u64,
        req: &AdminRequest,
        resp: &AdminResponse,
        modified: Option<Region>,
    ) -> bool {
        let left_out = match self.forwarder.pre_exec_admin(region, req, index, 6) {
            PreExecAdmin::Filter(f) => f,
            PreExecAdmin::TryFlush(f) => {
                let flushed = match self.flush_answer {
                    Some(0) => 0,
                    _ => {
                        let (ok, writes) = self.wrap.ffi_try_flush_data(
                            f.region_id,
                            f.try_until_succeed as u8,
                            f.index,
                            f.term,
                        );
                        apply_writes(&mut self.disk, writes);
                        ok
                    }
                };
                after_flush(flushed == 1)
            }
        };
        if left_out {
            self.empty_cmd(region, index);
            return false;
        }
        let after = modified.clone().unwrap_or(region.clone());
        let state = region_state(modified);
        let cmd = Cmd {
            index,
            term: 6,
            request: RaftCmdRequest { requests: vec![], admin_request: Some(req.clone()) },
            response: RaftCmdResponse { has_error: false, admin_response: resp.clone() },
        };
        let plan = self.forwarder.post_exec_admin(region, &cmd, &state);
        let (res, writes) = match &plan {
            AdminPlan::Failed { .. } => unreachable!(),
            AdminPlan::Admin { request, response, header } => {
                self.wrap.handle_admin_raft_cmd(request, response, *header)
            }
        };
        apply_writes(&mut self.disk, writes);
        let persist = self.forwarder.post_exec_admin_done(&plan, res, &state);
        if req.cmd_type == AdminCmdType::CompactLog {
            let t = &mut self.applied.get_mut(&region.id).unwrap().truncated_state;
            t.index = req.compact_log.compact_index;
            t.term = req.compact_log.compact_term;
        }
        self.finish(&after, index, persist);
        true
    }

    fn in_memory(&self, region_id: u64, key: &[u8]) -> Option<Vec<u8>> {
        self.server().get_mem(region_id, WriteCmdCf::Default, &key.to_vec()).cloned()
    }

    fn on_disk(&self, key: &[u8]) -> Option<Vec<u8>> {
        self.disk.get(&(2, keys::data_key(key))).cloned()
    }

    fn scan(&self, cf: u8, from: &[u8], to: &[u8]) -> Vec<(Vec<u8>, Vec<u8>)> {
        self.disk
            .iter()
            .filter(|(k, _)| k.0 == cf && from <= &k.1[..] && (to.is_empty() || &k.1[..] < to))
            .map(|(k, v)| (k.1.clone(), v.clone()))
            .collect()
    }

    fn restart(&mut self) {
        self.wrap.engine_store_server.stop();
        for id in self.server().region_ids() {
            assert_eq!(self.store_region(id).apply_state.applied_index, 0);
            assert!(self.store_region(id).data[2].is_empty());
        }
        let mut reads = vec![];
        for id in self.server().region_ids() {
            let (from, to) = scan_bounds(&self.disk_region[&id]);
            reads.push(RegionRead {
                region_id: id,
                apply_state: self.disk_applied[&id],
                region_state: self.disk_region[&id].clone(),
                lock: self.scan(0, &from, &to),
                write: self.scan(1, &from, &to),
                default: self.scan(2, &from, &to),
            });
        }
        self.wrap.engine_store_server.restore(&reads);
        self.applied = self.disk_applied.clone();
    }

    /// Runs a task of the part that applies logs: the log is cut off, and the state is written.
    fn run_task(&mut self, region_id: u64, task: &ApplyTask) {
        if let ApplyTask::CheckCompact {
            voter_replicated_index, voter_replicated_term, applied_index, ..
        } = task
        {
            let state = self.applied.get_mut(&region_id).unwrap();
            assert!(applied_index.unwrap() <= state.applied_index);
            state.truncated_state = RaftTruncatedState {
                index: *voter_replicated_index,
                term: *voter_replicated_term,
            };
            self.disk_applied.insert(region_id, *state);
            self.compact_tasks += 1;
        }
    }
}

fn region_state(modified_region: Option<Region>) -> RegionState {
    RegionState { peer_id: 1, pending_remove: false, modified_region }
}

fn query_cmd(index: u64, requests: Vec<Request>) -> Cmd {
    Cmd {
        index,
        term: 6,
        request: RaftCmdRequest { requests, admin_request: None },
        response: RaftCmdResponse { has_error: false, admin_response: AdminResponse::default() },
    }
}

struct SstFile {
    meta: SstMeta,
    epoch: Option<RegionEpoch>,
    path: String,
    kvs: Vec<(Vec<u8>, Vec<u8>)>,
}

fn new_ingest_sst_cmd(meta: SstMeta) -> Request {
    Request::IngestSst { sst: meta }
}

fn make_sst(uuid: u8, region_id: u64, epoch: Option<RegionEpoch>, keys: Vec<String>) -> SstFile {
    let mut keys = keys;
    keys.sort();
    SstFile {
        meta: SstMeta { uuid: vec![uuid], region_id, cf_name: "default".to_string() },
        epoch,
        path: format!("import-sst/{}.sst", uuid),
        kvs: keys.iter().map(|k| (k.as_bytes().to_vec(), b"2".to_vec())).collect(),
    }
}

struct TestCluster {
    nodes: Vec<Node>,
    regions: Vec<Region>,
    index: HashMap<u64, u64>,
    log: Vec<(u64, u64, Vec<u8>, Vec<u8>)>,
    next_id: u64,
}

impl TestCluster {
    /// A cluster whose nodes all have a peer of one region.
    fn run(count: u64) -> TestCluster {
        let mut c = TestCluster::run_conf_change(count);
        for id in 2..=count {
            let mut region = c.region(b"");
            region.peers.push(new_peer(id, id));
            let e = region.region_epoch.unwrap();
            region.region_epoch = Some(RegionEpoch { conf_ver: e.conf_ver + 1, ..e });
            c.regions[0] = region;
        }
        let region = c.region(b"");
        for n in &mut c.nodes {
            n.wrap.engine_store_server.destroy_region(1);
            n.bootstrap(&region);
        }
        c.index.insert(1, 6);
        for n in &mut c.nodes {
            n.empty_cmd(&region, 6);
        }
        c
    }

    /// A cluster of which one node has a peer of one region.
    fn run_conf_change(count: u64) -> TestCluster {
        let region = initial_region(1, 1, 1);
        let mut c = TestCluster {
            nodes: (1..=count).map(Node::new).collect(),
            regions: vec![region.clone()],
            index: HashMap::new(),
            log: vec![],
            next_id: 1000,
        };
        c.nodes[0].bootstrap(&region);
        c.nodes[0].empty_cmd(&region, 6);
        c.index.insert(1, 6);
        c
    }

    fn region(&self, key: &[u8]) -> Region {
        self.regions.iter().find(|r| r.contains_key(key)).unwrap().clone()
    }

    fn node(&mut self, id: u64) -> &mut Node {
        &mut self.nodes[(id - 1) as usize]
    }

    fn next_index(&mut self, region_id: u64) -> u64 {
        let i = self.index.get_mut(&region_id).unwrap();
        *i += 1;
        *i
    }

    fn members(&self, region: &Region) -> Vec<usize> {
        (0..self.nodes.len())
            .filter(|i| region.find_peer(self.nodes[*i].id).is_some())
            .collect()
    }

    fn must_put(&mut self, k: &[u8], v: &[u8]) {
        let all = self.nodes.iter().map(|n| n.id).collect();
        self.put_to(k, v, all);
    }

    fn put_to(&mut self, k: &[u8], v: &[u8], ids: Vec<u64>) {
        let region = self.region(k);
        let index = self.next_index(region.id);
        self.log.push((region.id, index, k.to_vec(), v.to_vec()));
        for i in self.members(&region) {
            if ids.contains(&self.nodes[i].id) {
                let put = Request::Put {
                    cf: "default".to_string(),
                    key: k.to_vec(),
                    value: v.to_vec(),
                };
                self.nodes[i].query(&region, index, vec![put], &[]);
            }
        }
    }

    /// Applies the puts that a node has missed.
    fn catch_up(&mut self, id: u64) {
        let log = self.log.clone();
        for (region_id, index, k, v) in log {
            let region = self.region(&k);
            let n = self.node(id);
            if region.id == region_id && n.applied[&region_id].applied_index < index {
                let put = Request::Put { cf: "default".to_string(), key: k, value: v };
                n.query(&region, index, vec![put], &[]);
            }
        }
    }

    fn admin(
        &mut self,
        region: &Region,
        req: &AdminRequest,
        resp: &AdminResponse,
        modified: Option<Region>,
    ) -> Vec<bool> {
        let index = self.next_index(region.id);
        let mut done = vec![];
        for i in self.members(region) {
            done.push(self.nodes[i].admin(region, index, req, resp, modified.clone()));
        }
        done
    }

    fn change_peers(&mut self, region: &Region, peers: Vec<Peer>, joint: bool) {
        let e = region.region_epoch.unwrap();
        let mut new = region.clone();
        new.peers = peers;
        new.region_epoch = Some(RegionEpoch { conf_ver: e.conf_ver + 1, ..e });
        let cmd = if joint { AdminCmdType::ChangePeerV2 } else { AdminCmdType::ChangePeer };
        let mut resp = AdminResponse::default();
        resp.change_peer = new.clone();
        self.admin(region, &AdminRequest::new(cmd), &resp, Some(new.clone()));
        let i = self.regions.iter().position(|r| r.id == region.id).unwrap();
        self.regions[i] = new;
    }

    fn must_split(&mut self, region: &Region, key: &[u8], right_derive: bool) {
        let e = region.region_epoch.unwrap();
        let epoch = Some(RegionEpoch { version: e.version + 1, ..e });
        self.next_id += 1;
        let mut left = region.clone();
        let mut right = region.clone();
        left.region_epoch = epoch;
        right.region_epoch = epoch;
        left.end_key = key.to_vec();
        right.start_key = key.to_vec();
        let born = if right_derive { &mut left } else { &mut right };
        born.id = self.next_id;
        let born = born.clone();
        let mut resp = AdminResponse::default();
        resp.splits = vec![left.clone(), right.clone()];
        let kept = if right_derive { right.clone() } else { left.clone() };
        self.admin(region, &AdminRequest::new(AdminCmdType::BatchSplit), &resp, Some(kept));
        let i = self.regions.iter().position(|r| r.id == region.id).unwrap();
        self.regions.remove(i);
        self.regions.push(left);
        self.regions.push(right);
        self.index.insert(born.id, 5);
        for i in self.members(&born) {
            self.nodes[i].bootstrap(&born);
        }
    }

    fn must_merge(&mut self, source_id: u64, target_id: u64) {
        let source = self.regions.iter().find(|r| r.id == source_id).unwrap().clone();
        let target = self.regions.iter().find(|r| r.id == target_id).unwrap().clone();
        let e = source.region_epoch.unwrap();
        let mut prepared = source.clone();
        prepared.region_epoch =
            Some(RegionEpoch { version: e.version + 1, conf_ver: e.conf_ver + 1 });
        let mut req = AdminRequest::new(AdminCmdType::PrepareMerge);
        req.prepare_merge = Some(target.clone());
        self.admin(&source, &req, &AdminResponse::default(), Some(prepared.clone()));

        let t = target.region_epoch.unwrap();
        let version = std::cmp::max(prepared.region_epoch.unwrap().version, t.version) + 1;
        let mut merged = target.clone();
        merged.region_epoch = Some(RegionEpoch { version, ..t });
        if source.end_key == target.start_key {
            merged.start_key = source.start_key.clone();
        } else {
            merged.end_key = source.end_key.clone();
        }
        let mut req = AdminRequest::new(AdminCmdType::CommitMerge);
        req.commit_merge_source = prepared;
        self.admin(&target, &req, &AdminResponse::default(), Some(merged.clone()));
        self.regions.retain(|r| r.id != source_id && r.id != target_id);
        self.regions.push(merged);
    }

    fn compact_log(&mut self, key: &[u8], index: u64) -> Vec<bool> {
        let region = self.region(key);
        let mut req = AdminRequest::new(AdminCmdType::CompactLog);
        req.compact_log = CompactLogRequest { compact_index: index, compact_term: 6 };
        self.admin(&region, &req, &AdminResponse::default(), None)
    }

    /// Brings a snapshot of a region from its first node to another one.
    fn send_snapshot(&mut self, region_id: u64, to: u64, background: Option<bool>, files: usize) {
        let region = self.regions.iter().find(|r| r.id == region_id).unwrap().clone();
        let from = self.members(&region)[0];
        let idx = self.nodes[from].applied[&region_id].applied_index;
        let kvs: Vec<(Vec<u8>, Vec<u8>)> = {
            let data = &self.nodes[from].store_region(region_id).data[2];
            (0..data.len()).map(|i| (data.key_at(i).clone(), data.value_at(i).clone())).collect()
        };
        let size = if kvs.is_empty() { 0 } else { kvs.len() as u64 };
        let snap = Snapshot {
            cf_files: vec![
                CfFile { cf: "lock".to_string(), size: vec![0], file_paths: vec![] },
                CfFile { cf: "write".to_string(), size: vec![], file_paths: vec![] },
                CfFile {
                    cf: "default".to_string(),
                    size: vec![size],
                    file_paths: (0..files).map(|i| format!("default_{}.sst", i)).collect(),
                },
            ],
        };
        let key = SnapKey::new(region_id, 6, idx);
        let read = |ssts: &Vec<(String, WriteCmdCf)>| -> Vec<SstData> {
            let mut parts: Vec<SstData> =
                ssts.iter().map(|(_, cf)| SstData { type_: *cf, kvs: vec![] }).collect();
            let n = parts.len();
            for (i, kv) in kvs.iter().enumerate() {
                parts[i * n / kvs.len()].kvs.push(kv.clone());
            }
            parts
        };
        let n = self.node(to);
        assert!(n.forwarder.should_pre_apply_snapshot());
        let peer_id = region.find_peer(to).unwrap().id;
        let mut received = None;
        if background.is_some() {
            let task = n.forwarder.pre_apply_snapshot(&region, peer_id, &key, Some(&snap), 77).unwrap();
            assert_eq!(task.ssts.len(), if size == 0 { 0 } else { files });
            assert_eq!((task.index, task.term, task.peer_id), (idx, 6, peer_id));
            if background == Some(true) {
                received = Some(n.wrap.ffi_pre_handle_snapshot(
                    task.region,
                    &read(&task.ssts),
                    task.index,
                    task.term,
                ));
            }
        }
        let request = match n.forwarder.post_apply_snapshot(&region, peer_id, &key, Some(&snap)) {
            PostApply::Finished => unreachable!(),
            PostApply::PreHandle(r) => Some(r),
            PostApply::AwaitTask(t) => {
                assert_eq!((t.recv, t.peer_id), (77, peer_id));
                let address = received.as_ref().map(|_| 99);
                match n.forwarder.post_apply_snapshot_received(&region, peer_id, &key, &snap, address) {
                    Prehandled::Apply(p) => {
                        assert_eq!(p, 99);
                        None
                    }
                    Prehandled::PreHandle(r) => Some(r),
                }
            }
        };
        let mut done = match request {
            None => received.unwrap(),
            Some(r) => n.wrap.ffi_pre_handle_snapshot(r.region, &read(&r.ssts), r.index, r.term),
        };
        let writes = n.wrap.ffi_apply_pre_handled_snapshot(&mut done);
        assert!(done.region.is_none());
        apply_writes(&mut n.disk, writes);
        let state = n.store_region(region_id).apply_state;
        n.applied.insert(region_id, state);
        n.disk_applied.insert(region_id, state);
        let local = RegionLocalState { state: PeerState::Normal, region: region.clone() };
        n.disk_region.insert(region_id, local);
    }

    /// Adds a peer, which gets its data through a snapshot.
    fn must_add_peer(&mut self, region_id: u64, peer: Peer) {
        let region = self.regions.iter().find(|r| r.id == region_id).unwrap().clone();
        let mut peers = region.peers.clone();
        peers.push(peer);
        self.change_peers(&region, peers, false);
    }

    fn must_remove_peer(&mut self, region_id: u64, peer: Peer) {
        let region = self.regions.iter().find(|r| r.id == region_id).unwrap().clone();
        let peers = region.peers.iter().filter(|p| p.id != peer.id).cloned().collect();
        self.change_peers(&region, peers, false);
        let n = self.node(peer.store_id);
        let gone = n.forwarder.on_region_changed(&region, RegionChangeEvent::Destroy);
        n.wrap.ffi_handle_destroy(gone.unwrap());
        n.applied.remove(&region_id);
        n.disk_applied.remove(&region_id);
        n.disk_region.remove(&region_id);
    }

    fn check_key(
        &self,
        k: &[u8],
        v: &[u8],
        in_mem: Option<bool>,
        in_disk: Option<bool>,
        ids: Option<Vec<u64>>,
    ) {
        let region = self.region(k);
        for n in &self.nodes {
            if let Some(ids) = &ids {
                if !ids.contains(&n.id) {
                    continue;
                }
            }
            if let Some(want) = in_mem {
                assert_eq!(n.in_memory(region.id, k) == Some(v.to_vec()), want);
            }
            if let Some(want) = in_disk {
                assert_eq!(n.on_disk(k) == Some(v.to_vec()), want);
            }
        }
    }

    /// The index up to which each node has applied a region, in memory and on disk.
    fn indexes(&self, region_id: u64) -> Vec<(u64, u64)> {
        self.nodes
            .iter()
            .filter(|n| n.applied.contains_key(&region_id))
            .map(|n| (n.applied[&region_id].applied_index, n.disk_applied[&region_id].applied_index))
            .collect()
    }
}

#[test]
fn test_store_stats() {
    let c = TestCluster::run(1);
    let hub = TiFlashFFIHub { engine_store_server_helper: 1 };
    for n in &c.nodes {
        let stats = n.wrap.ffi_handle_compute_store_stats();
        assert_eq!(hub.get_store_stats(stats).capacity, 444444);
        assert_eq!(stats.fs_stats.capacity_size, 444444);
        assert_eq!(stats.fs_stats.avail_size, 333333);
    }
}

fn handle_destroy() {
    let mut c = TestCluster::run(3);
    c.must_put(b"k1", b"v1");
    let region = c.region(b"k1");
    let peer_2 = region.find_peer(2).unwrap();
    assert!(c.node(2).server().has_region(region.id));
    c.must_remove_peer(region.id, peer_2);
    c.check_key(b"k1", b"v2", Some(false), None, Some(vec![2]));
    assert!(!c.node(2).server().has_region(region.id));
    assert!(c.node(1).server().has_region(region.id));
}

#[test]
fn normal_test_handle_destroy() {
    handle_destroy();
}

#[test]
fn region_test_handle_destroy() {
    handle_destroy();
}

#[test]
fn test_handle_ingest_sst() {
    let mut c = TestCluster::run(1);
    c.must_put(b"k", b"v");
    let region = c.region(b"k");
    let keys = (0..100).map(|i| format!("k{}", i)).collect::<Vec<_>>();
    let file = make_sst(1, region.id, region.region_epoch, keys);
    let index = c.next_index(region.id);
    let req = new_ingest_sst_cmd(file.meta.clone());
    c.node(1).query(&region, index, vec![req], &[file]);
    c.check_key(b"k66", b"2", Some(true), Some(true), None);
    assert_eq!(c.node(1).deleted_ssts, vec![vec![1]]);
    assert_eq!(c.indexes(region.id), vec![(index, index)]);
}

#[test]
fn test_invalid_ingest_sst() {
    let mut c = TestCluster::run(1);
    c.must_put(b"k", b"v");
    let region = c.region(b"k");
    let bad_epoch = Some(RegionEpoch { conf_ver: 999, version: 999 });
    let keys = (0..100).map(|i| format!("k{}", i)).collect::<Vec<_>>();
    let file = make_sst(1, region.id, bad_epoch, keys);
    let index = c.next_index(region.id);
    let req = new_ingest_sst_cmd(file.meta.clone());
    c.node(1).query(&region, index, vec![req], &[file]);
    c.check_key(b"k66", b"2", Some(false), Some(false), None);
    assert_eq!(c.node(1).deleted_ssts, vec![vec![1]]);
}

#[test]
fn test_ingest_return_none() {
    let mut c = TestCluster::run(1);
    c.must_put(b"k1", b"v1");
    c.must_put(b"k5", b"v5");
    let region = c.region(b"k1");
    c.must_split(&region, b"k5", true);
    let region1 = c.region(b"k1");
    let region5 = c.region(b"k5");
    assert_ne!(region1.id, region5.id);

    c.node(1).ingest_in_memory = true;
    let prev1 = c.indexes(region1.id);
    let prev5 = c.indexes(region5.id);
    let keys = (0..100).map(|i| format!("k1_{}", i)).collect::<Vec<_>>();
    let file1 = make_sst(1, region1.id, region1.region_epoch, keys);
    let index = c.next_index(region1.id);
    let req = new_ingest_sst_cmd(file1.meta.clone());
    c.node(1).query(&region1, index, vec![req], &[file1]);
    let keys = (0..100).map(|i| format!("k5_{}", i)).collect::<Vec<_>>();
    let file5 = make_sst(5, region5.id, region5.region_epoch, keys);
    let index = c.next_index(region5.id);
    let req = new_ingest_sst_cmd(file5.meta.clone());
    c.node(1).query(&region5, index, vec![req], &[file5]);

    c.check_key(b"k1_66", b"2", Some(true), Some(false), None);
    c.check_key(b"k5_66", b"2", Some(true), Some(false), None);
    let new1 = c.indexes(region1.id);
    let new5 = c.indexes(region5.id);
    assert_eq!(new1[0].0, prev1[0].0 + 1);
    assert_eq!(new1[0].1, prev1[0].1);
    assert_eq!(new5[0].0, prev5[0].0 + 1);
    assert_eq!(new5[0].1, prev5[0].1);
    // Not deleted.
    assert!(c.node(1).deleted_ssts.is_empty());
    c.node(1).ingest_in_memory = false;

    let keys = (200..300).map(|i| format!("k1_{}", i)).collect::<Vec<_>>();
    let file11 = make_sst(11, region1.id, region1.region_epoch, keys);
    let index = c.next_index(region1.id);
    let req = new_ingest_sst_cmd(file11.meta.clone());
    c.node(1).query(&region1, index, vec![req], &[file11]);
    c.check_key(b"k1_222", b"2", Some(true), None, None);
    let last1 = c.indexes(region1.id);
    let last5 = c.indexes(region5.id);
    // The first region is durable, the other one is not yet.
    assert_eq!(last1[0].0, new1[0].0 + 1);
    assert_ne!(last1[0].1, new1[0].1);
    assert_eq!(last5[0].1, new5[0].1);
    // The files of the first region can be deleted.
    assert_eq!(c.node(1).deleted_ssts, vec![vec![1], vec![11]]);
    assert_eq!(c.node(1).forwarder.pending_delete_ssts.len(), 1);
    assert_eq!(c.node(1).forwarder.pending_delete_ssts[0].meta.uuid, vec![5]);
}

#[test]
fn test_kv_restart() {
    let mut c = TestCluster::run(3);
    for n in &mut c.nodes {
        n.flush_answer = Some(0);
    }
    c.must_put(b"k", b"v");
    for i in 0..10 {
        c.must_put(format!("k{}", i).as_bytes(), format!("v{}", i).as_bytes());
    }
    let compact = c.indexes(1)[0].0 - 1;
    for n in &mut c.nodes {
        n.flush_answer = Some(1);
    }
    assert_eq!(c.compact_log(b"k", compact), vec![true, true, true]);
    for i in 0..10 {
        let (k, v) = (format!("k{}", i), format!("v{}", i));
        c.check_key(k.as_bytes(), v.as_bytes(), Some(true), Some(true), Some(vec![1]));
    }
    for i in 10..20 {
        c.must_put(format!("k{}", i).as_bytes(), format!("v{}", i).as_bytes());
    }
    for i in 10..20 {
        let (k, v) = (format!("k{}", i), format!("v{}", i));
        c.check_key(k.as_bytes(), v.as_bytes(), Some(true), Some(false), Some(vec![1]));
    }
    c.node(1).restart();
    for i in 0..10 {
        let (k, v) = (format!("k{}", i), format!("v{}", i));
        c.check_key(k.as_bytes(), v.as_bytes(), Some(true), Some(true), Some(vec![1]));
    }
    c.catch_up(1);
    for i in 0..20 {
        let (k, v) = (format!("k{}", i), format!("v{}", i));
        // Whatever was durable or not, no data is lost.
        c.check_key(k.as_bytes(), v.as_bytes(), Some(true), None, Some(vec![1]));
    }
}

fn huge_snapshot(is_multi: bool) {
    let mut c = TestCluster::run_conf_change(3);
    let files = if is_multi { 4 } else { 1 };
    let first_value = vec![0; 10240];
    for i in 0..400 {
        c.must_put(format!("{:03}", i).as_bytes(), &first_value);
    }
    let first_key: &[u8] = b"000";
    assert_eq!(c.node(2).on_disk(first_key), None);
    c.must_add_peer(1, new_peer(2, 2));
    c.send_snapshot(1, 2, Some(true), files);
    c.must_put(b"k2", b"v2");
    c.check_key(b"k2", b"v2", Some(true), None, Some(vec![2]));
    c.check_key(first_key, &first_value, Some(true), Some(true), Some(vec![2]));
    assert_eq!(c.node(3).on_disk(first_key), None);
    c.must_add_peer(1, new_peer(3, 3));
    assert_eq!(c.node(3).on_disk(first_key), None);
    c.send_snapshot(1, 3, Some(true), files);
    c.must_put(b"k3", b"v3");
    c.check_key(b"k3", b"v3", Some(true), None, None);
    c.check_key(b"399", &first_value, Some(true), Some(true), Some(vec![2, 3]));
}

#[test]
fn test_huge_multi_snapshot() {
    huge_snapshot(true)
}

#[test]
fn test_huge_normal_snapshot() {
    huge_snapshot(false)
}

#[test]
fn test_prehandle_fail() {
    let mut c = TestCluster::run_conf_change(3);
    c.must_put(b"k1", b"v1");
    // Where handling a snapshot in the background fails, it is handled when it is applied.
    c.must_add_peer(1, new_peer(2, 2));
    c.send_snapshot(1, 2, Some(false), 1);
    c.check_key(b"k1", b"v1", Some(true), Some(true), Some(vec![2]));
    assert_eq!(c.node(2).forwarder.pending_applies_count, 0);
    // The same where the background was never asked.
    c.check_key(b"k1", b"v1", Some(false), Some(false), Some(vec![3]));
    c.must_add_peer(1, new_peer(3, 3));
    c.send_snapshot(1, 3, None, 1);
    c.check_key(b"k1", b"v1", Some(true), Some(true), Some(vec![3]));
}

#[test]
fn test_split_merge() {
    let mut c = TestCluster::run(3);
    c.must_put(b"k1", b"v1");
    c.must_put(b"k3", b"v3");
    c.check_key(b"k1", b"v1", Some(true), None, None);
    c.check_key(b"k3", b"v3", Some(true), None, None);
    let r1 = c.region(b"k1");
    let r3 = c.region(b"k3");
    assert_eq!(r1.id, r3.id);

    c.must_split(&r1, b"k2", true);
    let r1_new = c.region(b"k1");
    let r3_new = c.region(b"k3");
    assert_eq!(r1.id, r3_new.id);
    for n in &c.nodes {
        assert!(n.server().has_region(r1_new.id));
        assert!(n.server().has_region(r3_new.id));
        assert!(same_region(&n.store_region(r1_new.id).region, &r1_new));
        assert!(same_region(&n.store_region(r3_new.id).region, &r3_new));
        assert_eq!(n.in_memory(r1_new.id, b"k1"), Some(b"v1".to_vec()));
        assert_eq!(n.in_memory(r1_new.id, b"k3"), None);
        assert_eq!(n.in_memory(r3_new.id, b"k3"), Some(b"v3".to_vec()));
        assert_eq!(n.in_memory(r3_new.id, b"k1"), None);
    }
    c.check_key(b"k1", b"v1", None, Some(true), None);
    c.check_key(b"k3", b"v3", None, Some(true), None);

    c.must_merge(r1_new.id, r3_new.id);
    let r3_new2 = c.region(b"k3");
    for n in &c.nodes {
        // The left region is removed.
        assert!(!n.server().has_region(r1_new.id));
        assert!(n.server().has_region(r3_new.id));
        assert!(same_region(&n.store_region(r3_new2.id).region, &r3_new2));
        assert_eq!(n.in_memory(r3_new2.id, b"k1"), Some(b"v1".to_vec()));
        assert_eq!(n.in_memory(r3_new2.id, b"k3"), Some(b"v3".to_vec()));
    }
    c.check_key(b"k1", b"v1", None, Some(true), None);
    c.check_key(b"k3", b"v3", None, Some(true), None);
    let origin_epoch = r3_new.get_region_epoch();
    let new_epoch = r3_new2.get_region_epoch();
    // PrepareMerge and CommitMerge, so it should be 2.
    assert_eq!(new_epoch.version, origin_epoch.version + 2);
    assert_eq!(new_epoch.conf_ver, origin_epoch.conf_ver);
}

#[test]
fn test_basic_concurrent_snapshot() {
    let mut c = TestCluster::run_conf_change(3);
    c.must_put(b"k1", b"v1");
    c.must_put(b"k3", b"v3");
    let region1 = c.region(b"k1");
    c.must_split(&region1, b"k2", true);
    let r1 = c.region(b"k1").id;
    let r3 = c.region(b"k3").id;
    c.must_add_peer(r1, new_peer(2, 2));
    c.must_add_peer(r3, new_peer(2, 2));
    let snap = Snapshot { cf_files: vec![] };
    let region1 = c.region(b"k1");
    let region3 = c.region(b"k3");
    let n = c.node(2);
    let (key1, key3) = (SnapKey::new(r1, 6, 9), SnapKey::new(r3, 6, 9));
    assert!(n.forwarder.pre_apply_snapshot(&region1, 2, &key1, Some(&snap), 1).is_some());
    assert!(n.forwarder.pre_apply_snapshot(&region3, 2, &key3, Some(&snap), 3).is_some());
    assert_eq!(n.forwarder.pending_applies_count, 2);
    for (region, key, recv) in [(&region1, key1, 1), (&region3, key3, 3)] {
        match n.forwarder.post_apply_snapshot(region, 2, &key, Some(&snap)) {
            PostApply::AwaitTask(t) => assert_eq!(t.recv, recv),
            _ => unreachable!(),
        }
        n.forwarder.post_apply_snapshot_received(region, 2, &key, &snap, Some(1));
    }
    assert_eq!(n.forwarder.pending_applies_count, 0);
    c.send_snapshot(r1, 2, Some(true), 1);
    c.send_snapshot(r3, 2, Some(true), 1);
    c.check_key(b"k1", b"v1", None, Some(true), Some(vec![1, 2]));
    c.check_key(b"k3", b"v3", None, Some(true), Some(vec![1, 2]));
    assert_eq!(c.node(2).forwarder.pending_applies_count, 0);
}

#[test]
fn test_many_concurrent_snapshot() {
    let count = 4;
    let mut c = TestCluster::run_conf_change(3);
    for i in 0..count {
        let k = format!("k{:0>4}", 2 * i + 1);
        let v = format!("v{}", 2 * i + 1);
        c.must_put(k.as_bytes(), v.as_bytes());
    }
    for i in 0..count {
        let k = format!("k{:0>4}", 2 * i + 1);
        let region = c.region(k.as_bytes());
        let sp = format!("k{:0>4}", 2 * i + 2);
        c.must_split(&region, sp.as_bytes(), true);
    }
    for i in 0..count {
        let k = format!("k{:0>4}", 2 * i + 1);
        let region_id = c.region(k.as_bytes()).id;
        c.must_add_peer(region_id, new_peer(2, 2));
        c.send_snapshot(region_id, 2, Some(true), 1);
    }
    for i in 0..count {
        let k = format!("k{:0>4}", 2 * i + 1);
        let v = format!("v{}", 2 * i + 1);
        c.check_key(k.as_bytes(), v.as_bytes(), Some(true), Some(true), Some(vec![2]));
    }
}

#[test]
fn test_persist_when_finish() {
    let mut c = TestCluster::run(3);
    c.must_put(b"k0", b"v0");
    c.check_key(b"k0", b"v0", Some(true), Some(false), None);
    let prev = c.indexes(1);
    c.must_put(b"k1", b"v1");
    c.check_key(b"k1", b"v1", Some(true), Some(false), None);
    let new = c.indexes(1);
    for i in 0..3 {
        assert_eq!(new[i].0, prev[i].0 + 1);
        assert_eq!(new[i].1, prev[i].1);
    }
    for n in &mut c.nodes {
        assert!(n.forwarder.pre_persist(true, None));
        n.write_apply_state = true;
    }
    c.must_put(b"k2", b"v2");
    c.check_key(b"k2", b"v2", Some(true), Some(false), None);
    c.must_put(b"k3", b"v3");
    c.check_key(b"k3", b"v3", Some(true), Some(false), None);
    for (memory, disk) in c.indexes(1) {
        assert_eq!(memory, disk);
    }
}

#[test]
fn test_persist_when_merge() {
    let mut c = TestCluster::run(3);
    c.must_put(b"k1", b"v1");
    c.must_put(b"k3", b"v3");
    c.check_key(b"k1", b"v1", Some(true), None, None);
    c.check_key(b"k3", b"v3", Some(true), None, None);
    let r1 = c.region(b"k1");
    c.must_split(&r1, b"k2", false);
    let r3 = c.region(b"k3");
    let prev = c.indexes(r3.id);
    let index = c.next_index(r3.id);
    for n in &mut c.nodes {
        n.empty_cmd(&r3, index);
    }
    c.must_merge(r1.id, r3.id);
    let r3_new = c.region(b"k3");
    assert_eq!(r3_new.id, r3.id);
    let new = c.indexes(r3_new.id);
    // Index 6 is the empty command, index 7 the CommitMerge.
    for i in 0..3 {
        assert_eq!(new[i].1, prev[i].1 + 2);
    }
    let merge = RaftCmdRequest {
        requests: vec![],
        admin_request: Some(AdminRequest::new(AdminCmdType::CommitMerge)),
    };
    assert!(c.node(1).forwarder.pre_persist(false, Some(&merge)));
}

#[test]
fn test_add_absent_learner_peer_by_simple() {
    let mut c = TestCluster::run(3);
    c.must_put(b"k1", b"v1");
    c.check_key(b"k1", b"v1", Some(true), None, Some(vec![1]));
    c.must_add_peer(1, new_learner_peer(4, 4));
    c.must_put(b"k3", b"v3");
    c.check_key(b"k3", b"v3", Some(true), None, None);
    assert_eq!(c.nodes.iter().filter(|n| n.disk_region.contains_key(&1)).count(), 3);
    for n in &c.nodes {
        assert_eq!(n.disk_region[&1].region.peers.len(), 3 + 1);
        assert_eq!(n.store_region(1).region.peers.len(), 3 + 1);
    }
}

fn joint_confchange(c: &mut TestCluster) {
    let region = c.region(b"");
    let mut peers = region.peers.clone();
    peers.push(new_peer(2, 2));
    peers.push(new_peer(3, 3));
    peers.push(new_learner_peer(4, 4));
    peers.push(new_learner_peer(5, 5));
    c.change_peers(&region, peers, true);
}

#[test]
fn test_add_absent_learner_peer_by_joint() {
    let mut c = TestCluster::run_conf_change(3);
    c.must_put(b"k1", b"v1");
    c.check_key(b"k1", b"v1", Some(true), None, Some(vec![1]));
    joint_confchange(&mut c);
    c.send_snapshot(1, 2, Some(true), 1);
    c.send_snapshot(1, 3, Some(true), 1);
    c.must_put(b"k3", b"v3");
    c.check_key(b"k3", b"v3", Some(true), None, None);
    assert_eq!(c.nodes.iter().filter(|n| n.disk_region.contains_key(&1)).count(), 3);
    for n in &c.nodes {
        assert_eq!(n.disk_region[&1].region.peers.len(), 1 + 2 + 2);
    }
}

/// Brings the region's metadata to stores that were not started.
fn later_bootstrap_learner_peer(c: &mut TestCluster) {
    for id in 1..=3 {
        assert_eq!(c.node(id).disk_region[&1].region.peers.len(), 1 + 2 + 2);
    }
    let region = c.node(1).disk_region[&1].region.clone();
    for id in [4, 5] {
        let (kv, raft) = prepare_bootstrap_cluster_with(&region);
        assert_eq!((kv.len(), raft.len()), (3, 1));
        let mut meta = StoreMeta::new();
        meta.consume(&kv);
        meta.consume(&raft);
        assert!(meta.prepare_bootstrap_region.is_some());
        let n = c.node(id);
        n.disk_region.insert(1, meta.region_states[&1].clone());
        n.disk_applied.insert(1, meta.apply_states[&1]);
        n.applied.insert(1, meta.apply_states[&1]);
        match &raft[0] {
            MetaWrite::PutRaftState { region_id, raft_state } => {
                assert_eq!(*region_id, 1);
                assert_eq!(raft_state.last_index, 5);
                assert_eq!(raft_state.hard_state.commit, 5);
                assert_eq!(raft_state.hard_state.term, 5);
            }
            _ => unreachable!(),
        }
    }
}

#[test]
fn test_add_delayed_started_learner_by_joint() {
    let mut c = TestCluster::run_conf_change(5);
    c.must_put(b"k1", b"v1");
    c.check_key(b"k1", b"v1", Some(true), None, Some(vec![1]));
    joint_confchange(&mut c);
    c.send_snapshot(1, 2, Some(true), 1);
    c.send_snapshot(1, 3, Some(true), 1);
    c.put_to(b"k2", b"v2", vec![1, 2, 3]);
    c.check_key(b"k2", b"v2", Some(true), None, Some(vec![1, 2, 3]));
    later_bootstrap_learner_peer(&mut c);
    for id in [4, 5] {
        c.catch_up(id);
    }
    c.must_put(b"k4", b"v4");
    c.check_key(b"k4", b"v4", Some(true), None, None);
    assert_eq!(c.nodes.iter().filter(|n| n.disk_region.contains_key(&1)).count(), 5);
    for n in &c.nodes {
        assert_eq!(n.disk_region[&1].region.peers.len(), 1 + 2 + 2);
    }
}

#[test]
fn test_add_delayed_started_learner_snapshot() {
    let mut c = TestCluster::run_conf_change(5);
    c.must_put(b"k1", b"v1");
    c.check_key(b"k1", b"v1", Some(true), None, Some(vec![1]));
    joint_confchange(&mut c);
    c.send_snapshot(1, 2, Some(true), 1);
    c.send_snapshot(1, 3, Some(true), 1);
    let value: String = (0..10240).map(|_| "X").collect();
    for i in 10..20 {
        let k = format!("k{}", i);
        c.put_to(k.as_bytes(), value.as_bytes(), vec![1, 2, 3]);
        c.check_key(k.as_bytes(), value.as_bytes(), Some(true), None, Some(vec![1, 2, 3]));
    }
    // The log is cut off, so that the others would need a snapshot.
    let compact_index = c.indexes(1)[0].0;
    assert!(compact_index > 15);
    let region = c.region(b"k1");
    let mut req = AdminRequest::new(AdminCmdType::CompactLog);
    req.compact_log = CompactLogRequest { compact_index, compact_term: 6 };
    let index = c.next_index(1);
    for id in 1..=3 {
        assert!(c.node(id).admin(&region, index, &req, &AdminResponse::default(), None));
    }
    later_bootstrap_learner_peer(&mut c);
    // The data is put in place by hand instead.
    let leader_region = c.node(1).store_region(1).region.clone();
    let pairs: Vec<(Vec<u8>, Vec<u8>)> = {
        let data = &c.node(1).store_region(1).data[2];
        (0..data.len()).map(|i| (data.key_at(i).clone(), data.value_at(i).clone())).collect()
    };
    let state = c.node(1).store_region(1).apply_state;
    for id in [4, 5] {
        let n = c.node(id);
        assert!(n.server().get_region(1).is_none());
        let mut new_region = make_new_region(Some(leader_region.clone()), Some(id));
        assert_eq!(new_region.peer.id, id);
        for (k, v) in &pairs {
            write_kv_in_mem(&mut new_region, 2, k, v);
        }
        new_region.apply_state = state;
        n.applied.insert(1, state);
        n.wrap.engine_store_server.put_region(1, new_region);
    }
    c.must_put(b"z1", b"v1");
    c.check_key(b"z1", b"v1", Some(true), None, None);
    c.check_key(b"k19", value.as_bytes(), Some(true), None, None);
    assert_eq!(c.nodes.iter().filter(|n| n.disk_region.contains_key(&1)).count(), 5);
    for n in &c.nodes {
        assert_eq!(n.disk_region[&1].region.peers.len(), 1 + 2 + 2);
    }
}

#[test]
fn test_consistency_check() {
    // ComputeHash and VerifyHash are left out.
    let mut c = TestCluster::run(2);
    c.must_put(b"k", b"v");
    let region = c.region(b"k");
    for cmd in [AdminCmdType::VerifyHash, AdminCmdType::VerifyHash, AdminCmdType::ComputeHash] {
        let done = c.admin(&region, &AdminRequest::new(cmd), &AdminResponse::default(), None);
        assert_eq!(done, vec![false, false]);
    }
    c.must_put(b"k2", b"v2");
    c.check_key(b"k2", b"v2", Some(true), None, None);
}

#[test]
fn test_old_compact_log() {
    let mut c = TestCluster::run(3);
    for i in 0..10 {
        c.must_put(format!("k{}", i).as_bytes(), format!("v{}", i).as_bytes());
    }
    for i in 0..10 {
        let (k, v) = (format!("k{}", i), format!("v{}", i));
        c.check_key(k.as_bytes(), v.as_bytes(), Some(true), None, None);
    }
    // An engine store that does not want its state to be durable after a CompactLog.
    let region = c.region(b"k1");
    let index = c.next_index(region.id);
    let n = c.node(1);
    let state = region_state(None);
    let cmd = Cmd {
        index,
        term: 6,
        request: RaftCmdRequest {
            requests: vec![],
            admin_request: Some(AdminRequest::new(AdminCmdType::CompactLog)),
        },
        response: RaftCmdResponse { has_error: false, admin_response: AdminResponse::default() },
    };
    let plan = n.forwarder.post_exec_admin(&region, &cmd, &state);
    assert!(!n.forwarder.post_exec_admin_done(&plan, EngineStoreApplyRes::NoPersist, &state));
}

#[test]
fn test_compact_log() {
    let mut c = TestCluster::run(3);
    c.must_put(b"k", b"v");
    for n in &mut c.nodes {
        n.flush_answer = Some(0);
    }
    for i in 0..10 {
        c.must_put(format!("k{}", i).as_bytes(), format!("v{}", i).as_bytes());
    }
    let prev: Vec<RaftTruncatedState> =
        c.nodes.iter().map(|n| n.applied[&1].truncated_state).collect();
    let prev_disk: Vec<RaftTruncatedState> =
        c.nodes.iter().map(|n| n.disk_applied[&1].truncated_state).collect();
    let compact = c.indexes(1)[0].0 - 1;
    // The command is left out, because the data can't be flushed.
    assert_eq!(c.compact_log(b"k", compact), vec![false, false, false]);
    for i in 0..3 {
        assert_eq!(c.nodes[i].applied[&1].truncated_state, prev[i]);
        assert_eq!(c.nodes[i].disk_applied[&1].truncated_state, prev_disk[i]);
    }
    for n in &mut c.nodes {
        n.flush_answer = None;
    }
    assert_eq!(c.compact_log(b"k", compact), vec![true, true, true]);
    c.must_put(b"kz", b"vz");
    c.check_key(b"kz", b"vz", Some(true), None, None);
    // The command is executed.
    for i in 0..3 {
        assert_ne!(c.nodes[i].applied[&1].truncated_state, prev[i]);
        let t = c.nodes[i].store_region(1).apply_state.truncated_state;
        assert_eq!(t, RaftTruncatedState { index: compact, term: 6 });
    }
}

#[test]
fn test_proactive_flush() {
    let mut c = TestCluster::run(1);
    for n in &mut c.nodes {
        n.flush_answer = Some(0);
    }
    for i in 1..10 {
        c.must_put(format!("k{}", i).as_bytes(), format!("v{}", i).as_bytes());
    }
    let prev = c.node(1).disk_applied[&1];
    let compact_index = c.indexes(1)[0].0 - 1;
    assert_eq!(c.compact_log(b"k1", compact_index), vec![false]);
    assert_eq!(c.node(1).disk_applied[&1], prev);
    // The engine store asks for it by itself.
    let mut router = ProxyApplyRouterHelper::new();
    router.schedule_compact_log_task(1, compact_index, 6, compact_index);
    assert_eq!(router.apply_router.len(), 1);
    match &router.apply_router[0] {
        (region_id, ApplyTask::CheckCompact { voter_replicated_index, voter_replicated_term, applied_index, .. }) => {
            assert_eq!(*region_id, 1);
            assert_eq!(*voter_replicated_index, compact_index);
            assert_eq!(*voter_replicated_term, 6);
            assert_eq!(*applied_index, Some(compact_index));
        }
        _ => unreachable!(),
    }
    // The task moves the state though the flush is still refused.
    for (region_id, task) in &router.apply_router {
        c.node(1).run_task(*region_id, task);
    }
    assert_eq!(c.node(1).flush_answer, Some(0));
    assert_ne!(c.node(1).disk_applied[&1], prev);
    assert_eq!(
        c.node(1).disk_applied[&1].truncated_state,
        RaftTruncatedState { index: compact_index, term: 6 }
    );
    assert_eq!(c.node(1).compact_tasks, 1);
}

#[derive(Clone, Copy, PartialEq)]
enum SourceType {
    Leader,
    Learner,
    DelayedLearner,
    InvalidSource,
}

/// Tries to add the peer of a region to a node as often as it is allowed.
fn fast_add_peer(
    c: &mut TestCluster,
    from: u64,
    to: u64,
    new_peer_id: u64,
    block_wait: bool,
    mut between: impl FnMut(&mut TestCluster, u32),
) -> (FastAddPeerRes, u32) {
    let mut attempt = 0;
    while let Some(delay) = attempt_delay(attempt) {
        assert_eq!(delay, if attempt == 0 { 0 } else { 30 });
        between(c, attempt);
        let mut target = std::mem::replace(
            &mut c.node(to).wrap.engine_store_server,
            EngineStoreServer::new(to, true),
        );
        let source = c.nodes.iter().find(|n| n.id == from);
        let step = fast_add_peer_attempt(
            source.map(|n| n.server()),
            source.and_then(|n| n.disk_region.get(&1)),
            source.and_then(|n| n.disk_applied.get(&1).copied()),
            &mut target,
            1,
            new_peer_id,
            block_wait,
        );
        c.node(to).wrap.engine_store_server = target;
        match step {
            FastAddPeerStep::Retry => attempt += 1,
            FastAddPeerStep::Failed(status) => return (failed_add_peer_res(status), attempt),
            FastAddPeerStep::CopyLog { apply_state, region } => {
                let n = c.node(to);
                n.applied.insert(1, apply_state);
                n.disk_applied.insert(1, apply_state);
                let local = RegionLocalState { state: PeerState::Normal, region: region.clone() };
                n.disk_region.insert(1, local);
                n.wrap.engine_store_server.mutate_region_states(1, |s: RegionStats| RegionStats {
                    fast_add_peer_count: s.fast_add_peer_count + 1,
                    ..s
                });
                return (fast_add_peer_copied(apply_state, region, true), attempt);
            }
        }
    }
    (attempts_used_up(), attempt)
}

fn simple_fast_add_peer(source_type: SourceType, block_wait: bool, pause: bool) {
    let mut c = TestCluster::run_conf_change(3);
    for n in &mut c.nodes {
        n.write_apply_state = true;
    }
    c.must_put(b"k0", b"v0");
    c.must_add_peer(1, new_learner_peer(2, 2));
    let (res, _) = fast_add_peer(&mut c, 1, 2, 2, block_wait, |_, _| {});
    assert_eq!(res.status, FastAddPeerStatus::Added);
    c.must_put(b"k1", b"v1");
    c.check_key(b"k1", b"v1", Some(true), None, Some(vec![1, 2]));

    let from = match source_type {
        SourceType::Leader => 1,
        SourceType::Learner | SourceType::DelayedLearner => 2,
        SourceType::InvalidSource => 100,
    };
    if pause && block_wait {
        // The source has not applied the change yet: it is asked again until it has.
        let (res, attempts) = fast_add_peer(&mut c, from, 3, 3, true, |c, attempt| {
            if attempt == 100 {
                c.must_add_peer(1, new_learner_peer(3, 3));
            }
        });
        assert_eq!(res.status, FastAddPeerStatus::Added);
        assert_eq!(attempts, 100);
    } else {
        c.must_add_peer(1, new_learner_peer(3, 3));
        let (res, attempts) = fast_add_peer(&mut c, from, 3, 3, block_wait, |_, _| {});
        assert_eq!(attempts, 0);
        if source_type == SourceType::InvalidSource {
            // The normal way is taken instead.
            assert_eq!(res.status, FastAddPeerStatus::NoSuitable);
            assert!(res.apply_state.is_none() && res.region.is_none());
            c.send_snapshot(1, 3, Some(true), 1);
        } else {
            assert_eq!(res.status, FastAddPeerStatus::Added);
            assert_eq!(res.apply_state.unwrap().applied_index, c.indexes(1)[0].0);
            assert!(same_region(&res.region.unwrap(), &c.region(b"k0")));
        }
    }
    c.must_put(b"k2", b"v2");
    c.check_key(b"k2", b"v2", Some(true), None, Some(vec![1, 2, 3]));
    if source_type == SourceType::DelayedLearner {
        c.put_to(b"k3", b"v3", vec![1, 3]);
        c.check_key(b"k3", b"v3", Some(true), None, Some(vec![1, 3]));
        c.check_key(b"k3", b"v3", Some(false), None, Some(vec![2]));
        c.catch_up(2);
    }

    // Destroy the peer.
    c.must_remove_peer(1, new_learner_peer(3, 3));
    assert!(c.node(1).disk_region[&1].region.find_peer(3).is_none());
    let n = c.node(3);
    assert!(!n.server().has_region(1));
    n.wrap.engine_store_server.mutate_region_states(1, |s: RegionStats| RegionStats {
        fast_add_peer_count: 0,
        ..s
    });
    c.must_put(b"k5", b"v5");
    // A peer that is added again can still go the fast way.
    c.must_add_peer(1, new_learner_peer(3, 4));
    let (res, _) = fast_add_peer(&mut c, 1, 3, 4, false, |_, _| {});
    assert_eq!(res.status, FastAddPeerStatus::Added);
    assert_eq!(c.node(3).disk_region[&1].region.find_peer(3).unwrap().id, 4);
    assert!(c.node(3).server().region_states[&1].fast_add_peer_count > 0);
    c.must_put(b"k6", b"v6");
    c.check_key(b"k6", b"v6", Some(true), None, Some(vec![1, 2, 3]));
    c.check_key(b"k0", b"v0", Some(true), None, Some(vec![1, 2, 3]));
}

#[test]
fn test_fast_add_peer_from_leader() {
    simple_fast_add_peer(SourceType::Leader, false, false);
}

#[test]
fn test_fast_add_peer_from_learner() {
    simple_fast_add_peer(SourceType::Learner, false, false);
}

#[test]
fn test_fast_add_peer_from_delayed_learner() {
    simple_fast_add_peer(SourceType::DelayedLearner, false, false);
}

#[test]
fn test_fast_add_peer_from_invalid_source() {
    simple_fast_add_peer(SourceType::InvalidSource, false, false);
}

#[test]
fn test_fast_add_peer_from_learner_blocked() {
    simple_fast_add_peer(SourceType::Learner, true, false);
}

#[test]
fn test_fast_add_peer_from_delayed_learner_blocked() {
    simple_fast_add_peer(SourceType::DelayedLearner, true, false);
}

#[test]
fn test_fast_add_peer_from_learner_blocked_paused() {
    simple_fast_add_peer(SourceType::Learner, true, true);
}

#[test]
fn test_fast_add_peer_from_delayed_learner_blocked_paused() {
    simple_fast_add_peer(SourceType::DelayedLearner, true, true);
}

#[test]
fn test_existing_peer() {
    let mut c = TestCluster::run_conf_change(2);
    for n in &mut c.nodes {
        n.write_apply_state = true;
    }
    c.must_put(b"k1", b"v1");
    c.check_key(b"k1", b"v1", Some(true), None, Some(vec![1]));
    c.must_add_peer(1, new_learner_peer(2, 2));
    let (res, _) = fast_add_peer(&mut c, 1, 2, 2, false, |_, _| {});
    assert_eq!(res.status, FastAddPeerStatus::Added);
    c.must_put(b"k3", b"v3");
    c.check_key(b"k3", b"v3", Some(true), None, None);
    let before = c.node(2).server().region_states[&1].fast_add_peer_count;
    let (_, writes) = c.node(2).wrap.ffi_try_flush_data(1, 0, 9, 6);
    apply_writes(&mut c.node(2).disk, writes);
    let region = c.node(2).store_region(1).region.clone();
    c.node(2).restart();
    assert!(same_region(&c.node(2).store_region(1).region, &region));
    c.must_put(b"k5", b"v5");
    c.check_key(b"k5", b"v5", Some(true), None, None);
    assert_eq!(c.node(2).server().region_states[&1].fast_add_peer_count, before);
}

#[test]
fn a_source_that_lost_its_states_ends_the_fast_way() {
    let mut c = TestCluster::run_conf_change(3);
    for n in &mut c.nodes {
        n.write_apply_state = true;
    }
    c.must_add_peer(1, new_learner_peer(2, 2));
    c.send_snapshot(1, 2, Some(true), 1);
    c.must_put(b"k1", b"v1");
    c.check_key(b"k1", b"v1", Some(true), None, Some(vec![1]));
    c.must_add_peer(1, new_learner_peer(3, 3));
    c.put_to(b"k2", b"v2", vec![1, 2]);
    c.check_key(b"k2", b"v2", Some(true), None, Some(vec![1, 2]));
    assert!(c.node(2).disk_region[&1].region.find_peer(3).is_some());
    // The second node misses some puts and gets a snapshot, which it has not applied yet: its
    // states are gone meanwhile, and the fast way ends.
    c.put_to(b"k3", b"v3", vec![1]);
    c.put_to(b"k4", b"v4", vec![1]);
    let local = c.node(2).disk_region.remove(&1);
    let (res, attempts) = fast_add_peer(&mut c, 2, 3, 3, false, |_, _| {});
    assert_eq!((res.status, attempts), (FastAddPeerStatus::WaitForData, 0));
    let (res, attempts) = fast_add_peer(&mut c, 2, 3, 3, true, |_, _| {});
    assert_eq!((res.status, attempts), (FastAddPeerStatus::BadData, 300));
    c.node(2).disk_region.insert(1, local.unwrap());
    c.send_snapshot(1, 2, Some(true), 1);
    c.send_snapshot(1, 3, Some(true), 1);
    c.check_key(b"k4", b"v4", Some(true), None, Some(vec![1, 3]));
}

#[test]
fn fast_add_peer_answers() {
    let mut c = TestCluster::run_conf_change(2);
    c.must_put(b"k1", b"v1");
    // The source does not know of the peer.
    let (res, _) = fast_add_peer(&mut c, 1, 2, 2, false, |_, _| {});
    assert_eq!(res.status, FastAddPeerStatus::WaitForData);
    c.must_add_peer(1, new_learner_peer(2, 2));
    // Another peer of the region is on the store.
    let (res, _) = fast_add_peer(&mut c, 1, 2, 9, false, |_, _| {});
    assert_eq!(res.status, FastAddPeerStatus::WaitForData);
    // The source is still applying a snapshot; its data is taken all the same.
    c.node(1).disk_region.get_mut(&1).unwrap().state = PeerState::Applying;
    let (res, _) = fast_add_peer(&mut c, 1, 2, 2, false, |_, _| {});
    assert_eq!(res.status, FastAddPeerStatus::Added);
    c.node(1).disk_region.get_mut(&1).unwrap().state = PeerState::Normal;
    // The source has no apply state.
    let state = c.node(1).disk_applied.remove(&1).unwrap();
    let (res, _) = fast_add_peer(&mut c, 1, 2, 2, false, |_, _| {});
    assert_eq!(res.status, FastAddPeerStatus::BadData);
    c.node(1).disk_applied.insert(1, state);
    // The target has no engine; the new region is there all the same.
    let mut target = EngineStoreServer::new(2, false);
    let local = c.node(1).disk_region[&1].clone();
    let step = fast_add_peer_attempt(
        Some(c.nodes[0].server()),
        Some(&local),
        Some(state),
        &mut target,
        1,
        2,
        false,
    );
    assert!(matches!(step, FastAddPeerStep::Failed(FastAddPeerStatus::OtherError)));
    assert_eq!(target.get_region(1).unwrap().peer.id, 2);
    assert!(target.get_region(1).unwrap().data[2].is_empty());
    // The log could not be copied.
    let res = fast_add_peer_copied(state, local.region.clone(), false);
    assert_eq!(res.status, FastAddPeerStatus::FailedInject);
    // The source has no engine, or does not know the region.
    let bare = EngineStoreServer::new(1, false);
    let step = fast_add_peer_attempt(Some(&bare), Some(&local), Some(state), &mut target, 1, 2, true);
    assert!(matches!(step, FastAddPeerStep::Failed(FastAddPeerStatus::BadData)));
    let bare = EngineStoreServer::new(1, true);
    let step = fast_add_peer_attempt(Some(&bare), Some(&local), Some(state), &mut target, 1, 2, true);
    assert!(matches!(step, FastAddPeerStep::Failed(FastAddPeerStatus::BadData)));
    assert_eq!(attempt_delay(0), Some(0));
    assert_eq!(attempt_delay(299), Some(30));
    assert_eq!(attempt_delay(300), None);
}

#[test]
fn header_of_an_empty_command() {
    let c = TestCluster::run(1);
    let h = c.nodes[0].forwarder.on_empty_cmd(&c.region(b""), 8, 7);
    assert_eq!(h, RaftCmdHeader { region_id: 1, index: 8, term: 7 });
}
