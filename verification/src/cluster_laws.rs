//! How clusters and stores are brought up, and what is made of the answers of the other side.

use vstd::prelude::*;

use crate::admin_laws;
use crate::bootstrap;
use crate::bootstrap::{BootstrapError, MetaWrite, StoreMeta, StoreMetaView};
use crate::bytes;
use crate::bytes::Order;
use crate::bytes_map;
use crate::cluster;
use crate::cluster::{Cluster, ClusterExt, ClusterExtView, FFIHelperSet, TiFlashEngine};
use crate::encryption;
use crate::encryption::{
    FileEncryptionInfo, FileEncryptionInfoRes, FileEncryptionRes, TiFlashRaftProxy,
};
use crate::engine_store::{EngineStoreServerWrap, MockConfig, StoreStats};
use crate::ffi::{BaseBuffView, ColumnFamilyType, TiFlashApplyRes};
use crate::ffi_snapshot;
use crate::ffi_snapshot::{SnapshotHelper, SnapshotKV, SnapshotView};
use crate::messages::{PeerRole, PeerState, Region, StoreIdent};
use crate::resource::{CfSample, EnginesResourceInfo};
use crate::router::{ApplyRouterHelper, ApplyTask, ProxyApplyRouterHelper};
use crate::server_helper::{
    CppStrWithView, GetRegionApproximateSizeKeysRes, HelperError, RawCppPtr, RawCppPtrTypeImpl,
    RawPSWriteBatchWrapper, ScanSplitKeysRes, SplitKeysWithView, TiFlashServerHelper,
    TiFlashStatus,
};
use crate::serverless::{ChangeSet, FastAddPeerExtra, ServerlessExtra};
use crate::sst_reader;
use crate::sst_reader::{FileReaderKind, SSTReader, SstData};
use crate::write_batch::{BatchSide, MixedWriteBatch, Rollback, WriteBatchError};

verus! {

/// The first region of a cluster holds every key, and its one peer, a voter, is on the store.
pub proof fn first_region_holds_all(
    store_id: u64,
    region_id: u64,
    peer_id: u64,
    r: Region,
    key: Seq<u8>,
)
    requires
        call_ensures(bootstrap::initial_region, (store_id, region_id, peer_id), r),
    ensures
        admin_laws::lies_in(key, r.start_key@, r.end_key@),
        r.id == region_id,
        r.peers@.len() == 1,
        r.peers@[0].id == peer_id,
        r.peers@[0].store_id == store_id,
        r.peers@[0].role == PeerRole::Voter,
        r.region_epoch is Some,
        r.region_epoch->0.conf_ver == 1,
        r.region_epoch->0.version == 1,
{
    bytes::lex_total(key, r.start_key@);
    assert(r@.peers == r.peers@);
    assert(r.start_key@ == Seq::<u8>::empty());
    if bytes::lex_lt(key, r.start_key@) {
        assert(false);
    }
}

/// A store is brought up exactly where it holds no data and no identity, and then gets the
/// identity of the cluster and its own number; a scan of its data that comes by a key finds it
/// not empty.
pub proof fn empty_stores_are_brought_up(
    empty: bool,
    known: bool,
    cluster_id: u64,
    store_id: u64,
    r: Result<MetaWrite, BootstrapError>,
    count: u32,
    none: bool,
    range: (ColumnFamilyType, Vec<u8>, Vec<u8>),
    key: Seq<u8>,
)
    requires
        call_ensures(bootstrap::bootstrap_store, (empty, known, cluster_id, store_id), r),
        call_ensures(bootstrap::is_range_empty, (count,), none),
        call_ensures(bootstrap::store_scan_range, (), range),
    ensures
        r is Ok <==> empty && !known,
        r is Err ==> r->Err_0 == BootstrapError::NotEmpty,
        r is Ok ==> r->Ok_0 is PutStoreIdent && r->Ok_0->ident.cluster_id == cluster_id
            && r->Ok_0->ident.store_id == store_id,
        none <==> count == 0,
        range.0 == ColumnFamilyType::Default,
        key.len() > 0 && key[0] < 255 ==> admin_laws::lies_in(key, range.1@, range.2@),
{
    if r is Ok {
        assert(r->Ok_0@ == (bootstrap::MetaWriteView::PutStoreIdent {
            ident: StoreIdent { cluster_id, store_id },
        }));
    }
    if key.len() > 0 && key[0] < 255 {
        assert(range.2@ =~= seq![255u8]);
        assert(bytes::smaller_at(key, range.2@, 0));
        bytes::lex_total(key, range.1@);
        if bytes::lex_lt(key, range.1@) {
            assert(false);
        }
    }
}

/// What is prepared for the first region is held once it was written: the region, its state,
/// which is normal, and logs that start behind the fifth entry of the fifth term. What was held
/// of other regions, and the identity of the store, stay.
pub proof fn prepared_region_is_held(
    region: &Region,
    ws: Vec<MetaWrite>,
    s: &mut StoreMeta,
    other: u64,
)
    requires
        call_ensures(bootstrap::prepare_bootstrap_cluster, (region,), ws),
        call_ensures(StoreMeta::consume, (s, &ws), ()),
    ensures
        ({
            let was = old(s)@;
            let now = final(s)@;
            let id = region.id;
            &&& now.prepare_bootstrap_region == Some(region@)
            &&& now.region_states.contains_key(id)
            &&& now.region_states[id].region == region@
            &&& now.region_states[id].state == PeerState::Normal
            &&& now.apply_states.contains_key(id)
            &&& now.apply_states[id].applied_index == 5
            &&& now.apply_states[id].truncated_state.index == 5
            &&& now.apply_states[id].truncated_state.term == 5
            &&& now.raft_states.contains_key(id)
            &&& now.raft_states[id].last_index == 5
            &&& now.raft_states[id].hard_state.term == 5
            &&& now.raft_states[id].hard_state.commit == 5
            &&& now.raft_states[id].hard_state.vote == 0
            &&& now.ident == was.ident
            &&& other != id ==> holds_the_same(was, now, other)
        }),
{
    let w = bootstrap::spec_prepare(region@);
    assert(w =~= seq![w[0], w[1], w[2], w[3]]);
    bootstrap::after_four(old(s)@, w[0], w[1], w[2], w[3]);
}

/// The states of a region are the same in both.
pub open spec fn holds_the_same(a: StoreMetaView, b: StoreMetaView, id: u64) -> bool {
    &&& a.region_states.contains_key(id) == b.region_states.contains_key(id)
    &&& a.region_states.contains_key(id) ==> a.region_states[id] == b.region_states[id]
    &&& a.apply_states.contains_key(id) == b.apply_states.contains_key(id)
    &&& a.apply_states.contains_key(id) ==> a.apply_states[id] == b.apply_states[id]
    &&& a.raft_states.contains_key(id) == b.raft_states.contains_key(id)
    &&& a.raft_states.contains_key(id) ==> a.raft_states[id] == b.raft_states[id]
}

/// Taking back what was prepared leaves nothing of the region, and everything else as it was;
/// taking back only the key leaves its states.
pub proof fn prepared_region_is_taken_back(
    region_id: u64,
    ws: Vec<MetaWrite>,
    s: &mut StoreMeta,
    key: Vec<MetaWrite>,
    k: &mut StoreMeta,
    other: u64,
)
    requires
        call_ensures(bootstrap::clear_prepare_bootstrap_cluster, (region_id,), ws),
        call_ensures(StoreMeta::consume, (s, &ws), ()),
        call_ensures(bootstrap::clear_prepare_bootstrap_key, (), key),
        call_ensures(StoreMeta::consume, (k, &key), ()),
    ensures
        final(s)@.prepare_bootstrap_region is None,
        !final(s)@.region_states.contains_key(region_id),
        !final(s)@.apply_states.contains_key(region_id),
        !final(s)@.raft_states.contains_key(region_id),
        final(s)@.ident == old(s)@.ident,
        other != region_id ==> holds_the_same(old(s)@, final(s)@, other),
        final(k)@.prepare_bootstrap_region is None,
        final(k)@.ident == old(k)@.ident,
        holds_the_same(old(k)@, final(k)@, other),
{
    let w = bootstrap::spec_clear(region_id);
    assert(w =~= seq![w[0], w[1], w[2], w[3]]);
    bootstrap::after_four(old(s)@, w[0], w[1], w[2], w[3]);
    let v = bootstrap::meta_views(key@);
    assert(v.len() == 1);
    assert(v.drop_last() =~= Seq::empty());
    reveal_with_fuel(StoreMetaView::after_all, 2);
}

/// Preparing in two parts, one for each engine, prepares the same, in the same order.
pub proof fn parts_prepare_the_same(
    region: &Region,
    ws: Vec<MetaWrite>,
    parts: (Vec<MetaWrite>, Vec<MetaWrite>),
)
    requires
        call_ensures(bootstrap::prepare_bootstrap_cluster, (region,), ws),
        call_ensures(bootstrap::prepare_bootstrap_cluster_with, (region,), parts),
    ensures
        parts.0@.len() == 3,
        parts.1@.len() == 1,
        ws@.len() == 4,
        ws@[0]@ == parts.0@[0]@,
        ws@[1]@ == parts.0@[1]@,
        ws@[2]@ == parts.0@[2]@,
        ws@[3]@ == parts.1@[0]@,
        parts.1@[0] is PutRaftState,
{
    let w = bootstrap::spec_prepare(region@);
    let a = bootstrap::meta_views(ws@);
    let b = bootstrap::meta_views((parts.0)@);
    let c = bootstrap::meta_views((parts.1)@);
    assert(a.len() == ws@.len());
    assert(b.len() == (parts.0)@.len());
    assert(c.len() == (parts.1)@.len());
    assert(a[0] == b[0] && a[1] == b[1] && a[2] == b[2]);
    assert(c[0] == w[3]);
}

/// A waiting engine store that gets a node is on that node, with all that it was made with, and
/// waits no longer; the others wait on in their order, and other nodes keep theirs.
pub proof fn stores_get_nodes(
    c: &mut Cluster,
    index: Option<usize>,
    node_id: u64,
    i: int,
    other: u64,
)
    requires
        match index {
            Some(i) => i < old(c).cluster_ext@.waiting.len(),
            None => old(c).cluster_ext@.waiting.len() > 0,
        },
        call_ensures(Cluster::register_ffi_helper_set, (c, index, node_id), ()),
    ensures
        ({
            let was = old(c).cluster_ext@;
            let now = final(c).cluster_ext@;
            let at: int = if index is Some {
                index->0 as int
            } else {
                was.waiting.len() - 1
            };
            let set = now.nodes[node_id];
            &&& now.nodes.contains_key(node_id)
            &&& set.server.id == node_id
            &&& set.server.engines == was.waiting[at].server.engines
            &&& set.server.regions == was.waiting[at].server.regions
            &&& set.server.proxy_compat == was.waiting[at].server.proxy_compat
            &&& set.server.mock_cfg == was.waiting[at].server.mock_cfg
            &&& set.maybe_proxy_helper == was.waiting[at].maybe_proxy_helper
            &&& set.cluster_ptr == was.waiting[at].cluster_ptr
            &&& set.helper_ptr == was.waiting[at].helper_ptr
            &&& now.waiting.len() == was.waiting.len() - 1
            &&& 0 <= i < at ==> now.waiting[i] == was.waiting[i]
            &&& at < i < was.waiting.len() ==> now.waiting[i - 1] == was.waiting[i]
            &&& other != node_id ==> {
                &&& now.nodes.contains_key(other) == was.nodes.contains_key(other)
                &&& was.nodes.contains_key(other) ==> now.nodes[other] == was.nodes[other]
            }
            &&& now.test_data == was.test_data
        }),
        final(c).engines == old(c).engines,
{
}

proof fn all_get_nodes(s: ClusterExtView, ids: Seq<u64>, i: int)
    requires
        ids.len() <= s.waiting.len(),
        forall|a: int, b: int| 0 <= a < b < ids.len() ==> #[trigger] ids[a] < #[trigger] ids[b],
    ensures
        s.all_registered(ids).waiting == s.waiting.skip(ids.len() as int),
        0 <= i < ids.len() ==> {
            &&& s.all_registered(ids).nodes.contains_key(ids[i])
            &&& s.all_registered(ids).nodes[ids[i]] == s.waiting[i].on_node(ids[i])
        },
    decreases ids.len(),
{
    if ids.len() == 0 {
        assert(s.waiting.skip(0) =~= s.waiting);
    } else {
        let p = ids.drop_last();
        let n = ids.len() - 1;
        assert(forall|j: int| 0 <= j < p.len() ==> p[j] == ids[j]);
        all_get_nodes(s, p, i);
        let t = s.all_registered(p);
        assert(t.waiting[0] == s.waiting[n]);
        assert(t.waiting.remove(0) =~= s.waiting.skip(ids.len() as int));
        if 0 <= i < n {
            assert(ids[i] < ids[n]);
        }
    }
}

proof fn one_rising_list(a: Seq<u64>, b: Seq<u64>)
    requires
        cluster::rises(a),
        cluster::rises(b),
        forall|x: u64| #[trigger] a.contains(x) <==> b.contains(x),
    ensures
        a == b,
    decreases a.len(),
{
    if a.len() == 0 {
        if b.len() > 0 {
            assert(b.contains(b[0]));
            assert(!a.contains(b[0]));
        }
        assert(a =~= b);
    } else {
        let x = a.last();
        assert(a[a.len() - 1] == x);
        assert(a.contains(x));
        let i = b.index_of(x);
        let y = b.last();
        assert(b[b.len() - 1] == y);
        assert(b.contains(y));
        assert(a.contains(y));
        let j = a.index_of(y);
        assert(x == y) by {
            if i < b.len() - 1 {
                assert(b[i] < b[b.len() - 1]);
            }
            if j < a.len() - 1 {
                assert(a[j] < a[a.len() - 1]);
            }
        }
        let p = a.drop_last();
        let q = b.drop_last();
        assert(cluster::rises(p) && cluster::rises(q));
        assert forall|z: u64| #[trigger] p.contains(z) <==> q.contains(z) by {
            if p.contains(z) {
                let k = p.index_of(z);
                assert(a[k] == z && a[k] < a[a.len() - 1]);
                assert(a.contains(z));
                let m = b.index_of(z);
                assert(q[m] == z);
            }
            if q.contains(z) {
                let k = q.index_of(z);
                assert(b[k] == z && b[k] < b[b.len() - 1]);
                assert(b.contains(z));
                assert(a.contains(z));
                let m = a.index_of(z);
                assert(p[m] == z);
            }
        }
        one_rising_list(p, q);
        assert(a =~= p.push(x));
        assert(b =~= q.push(x));
    }
}

/// Once a cluster is brought up, every node that has an engine has an engine store, with the
/// node's number: the first node gets the store that has waited longest, and so on in the order
/// of the nodes' numbers. Stores that are left wait on.
pub proof fn nodes_get_stores(c: &mut Cluster, nodes: Seq<u64>, i: int, j: int)
    requires
        old(c).engines@.dom().finite(),
        old(c).engines@.dom().len() <= old(c).cluster_ext@.waiting.len(),
        call_ensures(Cluster::bootstrap_ffi_helper_set, (c,), ()),
        forall|a: int, b: int|
            0 <= a < b < nodes.len() ==> #[trigger] nodes[a] < #[trigger] nodes[b],
        forall|x: u64| #[trigger] nodes.contains(x) <==> old(c).engines@.contains_key(x),
        0 <= i < nodes.len(),
    ensures
        final(c).engines == old(c).engines,
        nodes.len() <= old(c).cluster_ext@.waiting.len(),
        ({
            let was = old(c).cluster_ext@.waiting;
            let now = final(c).cluster_ext@;
            let set = now.nodes[nodes[i]];
            &&& now.nodes.contains_key(nodes[i])
            &&& set.server.id == nodes[i]
            &&& set.helper_ptr == was[i].helper_ptr
            &&& set.maybe_proxy_helper == was[i].maybe_proxy_helper
            &&& set.cluster_ptr == was[i].cluster_ptr
            &&& set.server.regions == was[i].server.regions
            &&& set.server.engines == was[i].server.engines
            &&& set.server.proxy_compat == was[i].server.proxy_compat
            &&& now.waiting.len() == was.len() - nodes.len()
            &&& 0 <= j < now.waiting.len() ==> now.waiting[j] == was[nodes.len() + j]
        }),
{
    let s = old(c).cluster_ext@;
    let ids = choose|ids: Seq<u64>|
        {
            &&& #[trigger] cluster::rises(ids)
            &&& forall|x: u64| #[trigger] ids.contains(x) <==> old(c).engines@.contains_key(x)
            &&& final(c).cluster_ext@ == s.all_registered(ids)
        };
    assert(cluster::rises(ids));
    assert(cluster::rises(nodes));
    assert forall|x: u64| #[trigger] ids.contains(x) <==> nodes.contains(x) by {
        assert(nodes.contains(x) <==> old(c).engines@.contains_key(x));
    }
    one_rising_list(ids, nodes);
    assert(ids.no_duplicates());
    ids.unique_seq_to_set();
    assert(ids.to_set() =~= old(c).engines@.dom());
    all_get_nodes(s, ids, i);
}

/// A store that is made for a cluster waits behind the others, without a number or regions, and
/// with what it was made with.
pub proof fn stores_are_made(
    c: &mut Cluster,
    proxy_helper: usize,
    helper_ptr: isize,
    cluster_ptr: isize,
    proxy_compat: bool,
    cfg: MockConfig,
    id: u64,
    engines: bool,
    set: FFIHelperSet,
    fresh: ClusterExt,
    i: int,
    region_id: u64,
)
    requires
        call_ensures(
            Cluster::create_ffi_helper_set,
            (c, proxy_helper, helper_ptr, cluster_ptr, proxy_compat, cfg),
            (),
        ),
        call_ensures(
            ClusterExt::make_ffi_helper_set_no_bind,
            (id, engines, proxy_helper, helper_ptr, cluster_ptr, proxy_compat, cfg),
            set,
        ),
        call_ensures(ClusterExt::new, (), fresh),
    ensures
        ({
            let was = old(c).cluster_ext@;
            let now = final(c).cluster_ext@;
            let last = now.waiting[was.waiting.len() as int];
            &&& now.waiting.len() == was.waiting.len() + 1
            &&& 0 <= i < was.waiting.len() ==> now.waiting[i] == was.waiting[i]
            &&& now.nodes == was.nodes
            &&& last.helper_ptr == helper_ptr
            &&& last.cluster_ptr == cluster_ptr
            &&& last.maybe_proxy_helper == Some(proxy_helper)
            &&& last.server.id == 0
            &&& last.server.engines
            &&& last.server.proxy_compat == proxy_compat
            &&& last.server.mock_cfg == cfg
            &&& !last.server.regions.contains_key(region_id)
        }),
        final(c).engines == old(c).engines,
        set@.helper_ptr == helper_ptr,
        set@.cluster_ptr == cluster_ptr,
        set@.maybe_proxy_helper == Some(proxy_helper),
        set@.server.id == id,
        set@.server.engines == engines,
        set@.server.proxy_compat == proxy_compat,
        set@.server.mock_cfg == cfg,
        !set@.server.regions.contains_key(region_id),
        fresh@.waiting.len() == 0,
        !fresh@.nodes.contains_key(region_id),
{
}

/// The nodes of a cluster are those with an engine, in the order of their numbers; stores that
/// are asked for are given as they are asked for.
pub proof fn nodes_are_listed(
    c: &Cluster,
    ids: Vec<u64>,
    all: Vec<u64>,
    asked: Vec<u64>,
    some: Vec<u64>,
    node: u64,
)
    requires
        call_ensures(Cluster::node_ids, (c,), ids),
        call_ensures(Cluster::helper_ids, (c, None::<Vec<u64>>), all),
        call_ensures(Cluster::helper_ids, (c, Some(asked)), some),
    ensures
        forall|i: int, j: int| 0 <= i < j < ids@.len() ==> #[trigger] ids@[i] < #[trigger] ids@[j],
        ids@.contains(node) <==> c.engines@.contains_key(node),
        forall|i: int, j: int| 0 <= i < j < all@.len() ==> #[trigger] all@[i] < #[trigger] all@[j],
        all@.contains(node) <==> c.engines@.contains_key(node),
        some@ == asked@,
{
}

/// Safe timestamps are as expected exactly where both are those that were set last.
pub proof fn timestamps_are_expected(
    c: &mut Cluster,
    leader: u64,
    own: u64,
    after: &Cluster,
    x: u64,
    y: u64,
    r: bool,
)
    requires
        call_ensures(Cluster::set_expected_safe_ts, (c, leader, own), ()),
        after.cluster_ext@ == final(c).cluster_ext@,
        call_ensures(Cluster::safe_ts_as_expected, (after, x, y), r),
    ensures
        r <==> x == own && y == leader,
        final(c).cluster_ext@.waiting == old(c).cluster_ext@.waiting,
        final(c).cluster_ext@.nodes == old(c).cluster_ext@.nodes,
        final(c).engines == old(c).engines,
{
}

/// What the key manager said of a file is told as it is: that there is no key manager, how the
/// file is encrypted, or what went wrong, behind the words for what was tried.
pub proof fn encryption_is_told(
    reply: Option<Result<FileEncryptionInfo, String>>,
    get: FileEncryptionInfoRes,
    fresh: FileEncryptionInfoRes,
    answer: Option<Result<(), String>>,
    del: FileEncryptionInfoRes,
    link: FileEncryptionInfoRes,
    rename: FileEncryptionInfoRes,
)
    requires
        call_ensures(encryption::ffi_handle_get_file, (reply,), get),
        call_ensures(encryption::ffi_handle_new_file, (reply,), fresh),
        call_ensures(encryption::ffi_handle_delete_file, (answer,), del),
        call_ensures(encryption::ffi_handle_link_file, (answer,), link),
        call_ensures(encryption::ffi_handle_rename_file, (answer,), rename),
    ensures
        reply is None <==> get.res == 0,
        reply is None <==> fresh.res == 0,
        reply matches Some(Ok(f)) ==> {
            &&& get.res == 1 && get.method == f.method
            &&& get.key == Some(f.key) && get.iv == Some(f.iv)
            &&& fresh.res == 1 && fresh.method == f.method
            &&& fresh.key == Some(f.key) && fresh.iv == Some(f.iv)
            &&& get.erro_msg is None && fresh.erro_msg is None
        },
        reply matches Some(Err(e)) ==> {
            &&& get.res == 2 && get.erro_msg is Some
            &&& get.erro_msg->0@ == "Encryption key manager get file failure: "@ + e@
            &&& fresh.res == 2 && fresh.erro_msg is Some
            &&& fresh.erro_msg->0@ == "Encryption key manager new file failure: "@ + e@
            &&& get.key is None && get.iv is None && fresh.key is None && fresh.iv is None
        },
        answer is None ==> del.res == 0 && link.res == 0 && rename.res == 0,
        answer matches Some(Ok(_)) ==> {
            &&& del.res == 1 && link.res == 1 && rename.res == 1
            &&& del.erro_msg is None && link.erro_msg is None && rename.erro_msg is None
        },
        answer matches Some(Err(e)) ==> {
            &&& del.res == 2 && link.res == 2 && rename.res == 2
            &&& del.erro_msg is Some && link.erro_msg is Some && rename.erro_msg is Some
            &&& del.erro_msg->0@ == "Encryption key manager delete file failure: "@ + e@
            &&& link.erro_msg->0@ == "Encryption key manager link file failure: "@ + e@
            &&& rename.erro_msg->0@ == "Encryption key manager rename file failure: "@ + e@
        },
{
}

/// The engine store is told 1 where the proxy was stopped or encrypts, and else 0, and the method
/// of the key manager.
pub proof fn proxy_is_asked(proxy: &TiFlashRaftProxy, stopped: u8, on: u8, method: u8)
    requires
        call_ensures(encryption::ffi_handle_check_stopped, (proxy,), stopped),
        call_ensures(encryption::ffi_is_encryption_enabled, (proxy,), on),
        call_ensures(encryption::ffi_encryption_method, (proxy,), method),
    ensures
        stopped == 1 <==> proxy.stopped,
        stopped == 0 <==> !proxy.stopped,
        on == 1 <==> proxy.key_manager is Some,
        on == 0 <==> proxy.key_manager is None,
        proxy.key_manager is Some ==> method == proxy.key_manager->0,
        proxy.key_manager is None ==> method == 1,
{
}

/// The engine store's functions pass exactly where they have the right number and the right
/// version; the number is looked at first.
pub proof fn functions_are_checked(h: &TiFlashServerHelper, r: Result<(), HelperError>)
    requires
        call_ensures(TiFlashServerHelper::check, (h,), r),
    ensures
        r is Ok <==> h.magic_number == 0x13579BDF && h.version == 12,
        h.magic_number != 0x13579BDF ==> r == Err::<(), HelperError>(
            HelperError::MagicNumber { expect: 0x13579BDF, got: h.magic_number },
        ),
        h.magic_number == 0x13579BDF && h.version != 12 ==> r == Err::<(), HelperError>(
            HelperError::Version { expect: 12, got: h.version },
        ),
{
}

/// What the engine store answered counts exactly where it says so: sizes, numbers of keys and
/// split keys are then given as they came, and else an error for the region.
pub proof fn answers_count_where_ok(
    h: &TiFlashServerHelper,
    region_id: u64,
    res: ScanSplitKeysRes,
    r: Result<(u64, u64, Vec<Vec<u8>>), HelperError>,
    region: &Region,
    sizes: GetRegionApproximateSizeKeysRes,
    s: Result<(u64, u64), HelperError>,
)
    requires
        call_ensures(TiFlashServerHelper::scan_split_keys, (h, region_id, res), r),
        call_ensures(
            TiFlashServerHelper::get_region_approximate_size_keys_of_tiflash,
            (h, region, sizes),
            s,
        ),
    ensures
        r is Ok <==> res.ok != 0,
        r is Ok ==> {
            &&& r->Ok_0.0 == res.size
            &&& r->Ok_0.1 == res.keys
            &&& r->Ok_0.2@.len() == res.split_keys.views().len()
            &&& forall|i: int|
                0 <= i < r->Ok_0.2@.len() ==> (#[trigger] r->Ok_0.2@[i])@
                    == res.split_keys.views()[i]@
        },
        r is Err ==> r->Err_0 == (HelperError::ScanSplitKeys { region_id }),
        s is Ok <==> sizes.ok != 0,
        s is Ok ==> s->Ok_0.0 == sizes.size && s->Ok_0.1 == sizes.keys,
        s is Err ==> s->Err_0 == (HelperError::ApproximateSizeKeys { region_id: region.id }),
{
}

/// The numbers with which the engine store answers: whether a snapshot is its own, whether it
/// terminates, how it is doing, and what is to be made durable after a command.
pub proof fn answers_are_read(
    h: &TiFlashServerHelper,
    a: u8,
    own: bool,
    over: bool,
    b: u8,
    status: TiFlashStatus,
    o: u32,
    w: TiFlashApplyRes,
    d: TiFlashApplyRes,
    g: TiFlashApplyRes,
    k: u32,
    kind: RawCppPtrTypeImpl,
    x: RawCppPtrTypeImpl,
    n: u32,
)
    requires
        call_ensures(TiFlashServerHelper::is_tiflash_snapshot, (h, a), own),
        call_ensures(TiFlashServerHelper::handle_check_terminated, (h, a), over),
        b <= 2,
        call_ensures(TiFlashServerHelper::handle_get_tiflash_status, (h, b), status),
        o <= 2,
        call_ensures(TiFlashServerHelper::handle_write_raft_cmd, (h, o), w),
        call_ensures(TiFlashServerHelper::handle_admin_raft_cmd, (h, o), d),
        call_ensures(TiFlashServerHelper::handle_ingest_sst, (h, o), g),
        k <= 3,
        call_ensures(RawCppPtrTypeImpl::from, (k,), kind),
        call_ensures(RawCppPtrTypeImpl::into, (x,), n),
    ensures
        own <==> a != 0,
        over <==> a != 0,
        b == 0 <==> status == TiFlashStatus::IDLE,
        b == 1 <==> status == TiFlashStatus::Running,
        b == 2 <==> status == TiFlashStatus::Stopped,
        o == 0 <==> w == TiFlashApplyRes::NoPersist,
        o == 1 <==> w == TiFlashApplyRes::Persist,
        o == 2 <==> w == TiFlashApplyRes::NotFound,
        d == w,
        g == w,
        k == 0 <==> kind == RawCppPtrTypeImpl::Null,
        k == 1 <==> kind == RawCppPtrTypeImpl::String,
        k == 2 <==> kind == RawCppPtrTypeImpl::PreHandledSnapshotWithBlock,
        k == 3 <==> kind == RawCppPtrTypeImpl::PreHandledSnapshotWithFiles,
        x == RawCppPtrTypeImpl::Null ==> n == 0,
        x == RawCppPtrTypeImpl::String ==> n == 1,
        x == RawCppPtrTypeImpl::PreHandledSnapshotWithBlock ==> n == 2,
        x == RawCppPtrTypeImpl::PreHandledSnapshotWithFiles ==> n == 3,
{
}

/// A pointer is handed back once: releasing it, or taking it over, leaves a null one of the
/// same kind, of which nothing is handed back.
pub proof fn pointers_are_handed_back_once(
    ptr: usize,
    tp: u32,
    fresh: RawCppPtr,
    p: &mut RawCppPtr,
    a: Option<RawCppPtr>,
    q: &mut RawCppPtr,
    b: Option<RawCppPtr>,
    s: &mut RawCppPtr,
    t: RawPSWriteBatchWrapper,
    g: &RawCppPtr,
    address: usize,
    kind: u32,
    null: bool,
)
    requires
        call_ensures(RawCppPtr::new, (ptr, tp), fresh),
        call_ensures(RawCppPtr::release, (p,), a),
        old(q).address() == final(p).address(),
        call_ensures(RawCppPtr::release, (q,), b),
        call_ensures(RawPSWriteBatchWrapper::from, (s,), t),
        call_ensures(RawCppPtr::raw_address, (g,), address),
        call_ensures(RawCppPtr::get_type, (g,), kind),
        call_ensures(RawCppPtr::is_null, (g,), null),
    ensures
        fresh.address() == ptr && fresh.kind() == tp,
        a is Some <==> old(p).address() != 0,
        a is Some ==> a->0 == *old(p),
        b is None,
        final(p).address() == 0 && final(p).kind() == old(p).kind(),
        t.ptr == old(s).address() && t.type_ == old(s).kind(),
        final(s).address() == 0 && final(s).kind() == old(s).kind(),
        address == g.address() && kind == g.kind(),
        null <==> address == 0,
{
}

/// What a peer brings along in a serverless cluster is given as it came; the offset of a key is
/// the number that its first four bytes are, and a change of a shard takes all of it over.
pub proof fn serverless_parts_are_given(
    res: &FastAddPeerExtra,
    e: ServerlessExtra,
    ver: u64,
    off: u32,
    enc: &[u8],
    txn: &[u8],
    shard_id: u64,
    c: &mut ChangeSet,
)
    requires
        call_ensures(ServerlessExtra::new, (res,), e),
        call_ensures(ServerlessExtra::get_shard_ver, (&e,), ver),
        call_ensures(ServerlessExtra::get_inner_key_off, (&e,), off),
        call_ensures(ServerlessExtra::get_enc_key, (&e,), enc),
        call_ensures(ServerlessExtra::get_txn_file_ref, (&e,), txn),
        call_ensures(ServerlessExtra::mutate_snap, (&e, shard_id, c), ()),
    ensures
        ver == res.shard_ver,
        enc@ == res.enc_key@,
        txn@ == res.txn_file_ref@,
        res.inner_key@.len() < 4 ==> off == 0,
        res.inner_key@.len() >= 4 ==> off == res.inner_key@[0] * 16777216 + res.inner_key@[1]
            * 65536 + res.inner_key@[2] * 256 + res.inner_key@[3],
        final(c).shard_ver == ver,
        final(c).snapshot.inner_key_off == off,
        final(c).snapshot.properties.shard_id == shard_id,
        final(c).snapshot.properties.encryption_key@ == enc@,
        final(c).snapshot.properties.txn_file_ref@ == txn@,
{
}

/// Going back to a save point goes back to the inner batch that was written to when it was set,
/// and takes that save point away; without one neither going back nor popping works, and
/// nothing changes. Save points come back in the reverse of the order in which they were set.
pub proof fn save_points_come_back(
    inner: BatchSide,
    fresh: MixedWriteBatch,
    s: &mut MixedWriteBatch,
    n: usize,
    p: &mut MixedWriteBatch,
    popped: Result<usize, WriteBatchError>,
    b: &mut MixedWriteBatch,
    back: Result<Rollback, WriteBatchError>,
    i: int,
)
    requires
        call_ensures(MixedWriteBatch::new, (inner,), fresh),
        call_ensures(MixedWriteBatch::set_save_point, (s,), n),
        old(p).save_points@ == final(s).save_points@,
        old(b).save_points@ == final(s).save_points@,
        call_ensures(MixedWriteBatch::pop_save_point, (p,), popped),
        call_ensures(MixedWriteBatch::rollback_to_save_point, (b,), back),
    ensures
        fresh.inner == inner && fresh.index == 0 && fresh.save_points@.len() == 0,
        n == old(s).index,
        final(s).index == old(s).index && final(s).inner == old(s).inner,
        final(s).save_points@.len() == old(s).save_points@.len() + 1,
        popped == Ok::<usize, WriteBatchError>(n),
        final(p).save_points@ =~= old(s).save_points@,
        final(p).index == old(p).index && final(p).inner == old(p).inner,
        back is Ok,
        back->Ok_0.batch == n,
        back->Ok_0.clear_up_to == old(b).index,
        final(b).index == n && final(b).inner == old(b).inner,
        final(b).save_points@ =~= old(s).save_points@,
        0 <= i < old(s).save_points@.len() ==> final(s).save_points@[i]
            == old(s).save_points@[i],
{
    assert(fresh@.inner == fresh.inner);
    assert(final(s)@.save_points == final(s).save_points@);
    assert(old(p)@.save_points == old(p).save_points@);
    assert(old(b)@.save_points == old(b).save_points@);
    assert(final(p)@.save_points == final(p).save_points@);
    assert(final(b)@.save_points == final(b).save_points@);
}

/// Without a save point there is none to pop or to go back to.
pub proof fn no_save_point_comes_back(
    p: &mut MixedWriteBatch,
    popped: Result<usize, WriteBatchError>,
    b: &mut MixedWriteBatch,
    back: Result<Rollback, WriteBatchError>,
)
    requires
        old(p).save_points@.len() == 0,
        old(b).save_points@.len() == 0,
        call_ensures(MixedWriteBatch::pop_save_point, (p,), popped),
        call_ensures(MixedWriteBatch::rollback_to_save_point, (b,), back),
    ensures
        popped == Err::<usize, WriteBatchError>(WriteBatchError::NoSavePoint),
        back == Err::<Rollback, WriteBatchError>(WriteBatchError::NoSavePoint),
        final(p)@ == old(p)@,
        final(b)@ == old(b)@,
{
}

/// A write goes to the side of the batch, exactly where it is to be made; ranges are never
/// deleted through a batch, and a batch is never written out by itself.
pub proof fn writes_go_to_their_side(
    b: &MixedWriteBatch,
    do_write: bool,
    put: Option<BatchSide>,
    del: Option<BatchSide>,
    range: Option<BatchSide>,
    auto: bool,
    other: &MixedWriteBatch,
    merged: BatchSide,
)
    requires
        call_ensures(MixedWriteBatch::put_cf, (b, do_write), put),
        call_ensures(MixedWriteBatch::delete_cf, (b, do_write), del),
        call_ensures(MixedWriteBatch::delete_range_cf, (b,), range),
        call_ensures(MixedWriteBatch::should_write_to_engine, (b,), auto),
        b.inner == other.inner,
        call_ensures(MixedWriteBatch::merge, (b, other), merged),
    ensures
        do_write ==> put == Some(b.inner) && del == Some(b.inner),
        !do_write ==> put is None && del is None,
        range is None,
        !auto,
        merged == b.inner,
{
}

/// How far the engines are behind is no less than for any column family, and is what one of
/// them is behind, or nothing; the raft engine counts only where raft has one of its own.
pub proof fn worst_family_counts(
    e: &EnginesResourceInfo,
    raft: &CfSample,
    default: &CfSample,
    write: &CfSample,
    lock: &CfSample,
    r: u32,
    raft_engine: bool,
    fresh: EnginesResourceInfo,
    u: &mut EnginesResourceInfo,
    avg: u32,
)
    requires
        call_ensures(
            EnginesResourceInfo::normalized_pending_bytes,
            (e, raft, default, write, lock),
            r,
        ),
        call_ensures(EnginesResourceInfo::new, (raft_engine,), fresh),
        call_ensures(EnginesResourceInfo::update, (u, r, avg), ()),
    ensures
        behind(*default) <= r,
        behind(*write) <= r,
        behind(*lock) <= r,
        e.raft_engine ==> behind(*raft) <= r,
        r == 0 || r == behind(*default) || r == behind(*write) || r == behind(*lock)
            || e.raft_engine && r == behind(*raft),
        fresh.raft_engine == raft_engine && fresh.latest_normalized_pending_bytes == 0,
        final(u).raft_engine == old(u).raft_engine,
        final(u).latest_normalized_pending_bytes >= r,
        final(u).latest_normalized_pending_bytes >= avg,
        final(u).latest_normalized_pending_bytes == r || final(u).latest_normalized_pending_bytes
            == avg,
{
}

/// How many hundredths of what is tolerated a column family is behind, in the low 32 bits.
pub open spec fn behind(s: CfSample) -> u32 {
    if s.pending is Some && s.soft_limit is Some && s.soft_limit->0 > 0 {
        (s.pending->0 * 100 / (s.soft_limit->0 as int)) as u32
    } else {
        0
    }
}

/// A snapshot that is handed over shows its column families in the order in which they were
/// added, each with its number and with its keys and values side by side.
pub proof fn snapshots_are_shown(
    fresh: SnapshotHelper,
    s: &mut SnapshotHelper,
    t: ColumnFamilyType,
    kv: SnapshotKV,
    after: &SnapshotHelper,
    v: Vec<SnapshotView>,
    none: bool,
    j: int,
)
    requires
        call_ensures(SnapshotHelper::new, (), fresh),
        call_ensures(SnapshotHelper::add_cf_snap, (s, t, kv), ()),
        after@ == final(s)@,
        call_ensures(SnapshotHelper::gen_snapshot_view, (after,), v),
        call_ensures(SnapshotHelper::empty, (after,), none),
        0 <= j < kv@.len(),
    ensures
        fresh@.len() == 0,
        !none,
        v@.len() == old(s)@.len() + 1,
        ({
            let last = v@[old(s)@.len() as int];
            &&& t == ColumnFamilyType::Lock ==> last.cf == 0
            &&& t == ColumnFamilyType::Write ==> last.cf == 1
            &&& t == ColumnFamilyType::Default ==> last.cf == 2
            &&& last.len == kv@.len()
            &&& last.keys@.len() == kv@.len()
            &&& last.vals@.len() == kv@.len()
            &&& last.keys@[j]@ == kv@[j].0@
            &&& last.vals@[j]@ == kv@[j].1@
        }),
{
    let last = v@[old(s)@.len() as int];
    let p = bytes_map::pair_views(kv@);
    assert(ffi_snapshot::views_cf(last, t, p));
    assert(last.keys@[j]@ == p[j].0);
    assert(last.vals@[j]@ == p[j].1);
}

/// The pairs of a file come without the prefix of their keys, in their order.
pub proof fn pairs_lose_their_prefix(
    pairs: &Vec<(Vec<u8>, Vec<u8>)>,
    r: SnapshotKV,
    i: int,
    key: Seq<u8>,
)
    requires
        call_ensures(ffi_snapshot::gen_snap_kv_data_from_sst, (pairs,), r),
        0 <= i < pairs@.len(),
        pairs@[i].0@ == seq![122u8] + key,
    ensures
        r@.len() == pairs@.len(),
        r@[i].0@ == key,
        r@[i].1@ == pairs@[i].1@,
{
    assert((seq![122u8] + key).skip(1) =~= key);
}

/// A file is read pair by pair in its order: what is left after a step is all but the first, and
/// there is something left exactly while a pair is.
pub proof fn files_are_read_in_order<'a>(
    data: &'a SstData,
    fresh: SSTReader<'a>,
    r: &SSTReader<'a>,
    more: bool,
    k: BaseBuffView<'a>,
    v: BaseBuffView<'a>,
    s: &mut SSTReader<'a>,
    t: ColumnFamilyType,
    kind: FileReaderKind,
)
    requires
        call_ensures(SSTReader::new, (data,), fresh),
        call_ensures(SSTReader::remained, (r,), more),
        r.rest().len() > 0,
        call_ensures(SSTReader::key, (r,), k),
        call_ensures(SSTReader::value, (r,), v),
        call_ensures(SSTReader::next, (s,), ()),
        call_ensures(sst_reader::reader_kind, (t,), kind),
    ensures
        fresh.rest().len() == data.kvs@.len(),
        forall|i: int|
            0 <= i < data.kvs@.len() ==> (#[trigger] fresh.rest()[i]).0 == data.kvs@[i].0@
                && fresh.rest()[i].1 == data.kvs@[i].1@,
        more,
        k@ == r.rest()[0].0,
        v@ == r.rest()[0].1,
        final(s).rest() == old(s).rest().skip(1),
        t == ColumnFamilyType::Lock <==> kind == FileReaderKind::LockCfFile,
{
}

/// Bytes are compared from the first one on: the first that differ decide, and where none do the
/// shorter comes first.
pub proof fn bytes_are_compared(a: &[u8], b: &[u8], r: Order, i: int)
    requires
        call_ensures(bytes::compare, (a, b), r),
        0 <= i <= a@.len(),
        0 <= i <= b@.len(),
        forall|j: int| 0 <= j < i ==> a@[j] == b@[j],
    ensures
        i < a@.len() && i < b@.len() && a@[i] < b@[i] ==> r == Order::Less,
        i < a@.len() && i < b@.len() && a@[i] > b@[i] ==> r == Order::Greater,
        i == a@.len() && i < b@.len() ==> r == Order::Less,
        i < a@.len() && i == b@.len() ==> r == Order::Greater,
        i == a@.len() && i == b@.len() ==> r == Order::Equal,
{
    if i < a@.len() && i < b@.len() && a@[i] < b@[i] {
        assert(bytes::smaller_at(a@, b@, i));
    }
    if i < a@.len() && i < b@.len() && a@[i] > b@[i] {
        assert(bytes::smaller_at(b@, a@, i));
    }
    if i == a@.len() && i < b@.len() {
        assert(bytes::smaller_at(a@, b@, i));
    }
    if i < a@.len() && i == b@.len() {
        assert(bytes::smaller_at(b@, a@, i));
    }
    if i == a@.len() && i == b@.len() {
        assert(a@ =~= b@);
    }
}

/// What an engine says of its store is what the store says.
pub proof fn engine_asks_the_store(
    c: &TiFlashEngine,
    store: &EngineStoreServerWrap,
    a: StoreStats,
    b: StoreStats,
)
    requires
        call_ensures(TiFlashEngine::get_store_stats, (c, store), a),
        call_ensures(EngineStoreServerWrap::ffi_handle_compute_store_stats, (store,), b),
    ensures
        a == b,
{
}

/// The engine of a node, and the engine below it, are those that the cluster has for the node.
pub proof fn engines_are_given(c: &Cluster, node: u64, e: TiFlashEngine, below: usize)
    requires
        call_ensures(Cluster::get_tiflash_engine, (c, node), e),
        call_ensures(Cluster::get_raw_engine, (c, node), below),
    ensures
        e == c.engines@[node],
        below == e.rocks,
{
}

/// The keys and the values of a column family are shown side by side, each as it is.
pub proof fn pairs_are_shown<'a>(
    kv: &'a SnapshotKV,
    r: (Vec<BaseBuffView<'a>>, Vec<BaseBuffView<'a>>),
    i: int,
)
    requires
        call_ensures(ffi_snapshot::gen_snap_kv_data_view, (kv,), r),
        0 <= i < kv@.len(),
    ensures
        r.0@.len() == kv@.len(),
        r.1@.len() == kv@.len(),
        r.0@[i]@ == kv@[i].0@,
        r.1@[i]@ == kv@[i].1@,
{
    let p = bytes_map::pair_views(kv@);
    assert(p[i] == (kv@[i].0@, kv@[i].1@));
    assert(ffi_snapshot::keys_of(p)[i] == p[i].0);
    assert(ffi_snapshot::values_of(p)[i] == p[i].1);
}

/// A task to look whether a log can be cut off is handed over behind the others, for its region
/// and with the numbers in their places.
pub proof fn tasks_are_handed_over(
    fresh: ProxyApplyRouterHelper,
    h: &mut ProxyApplyRouterHelper,
    region_id: u64,
    index: u64,
    term: u64,
    applied: u64,
    i: int,
)
    requires
        call_ensures(ProxyApplyRouterHelper::new, (), fresh),
        call_ensures(
            ProxyApplyRouterHelper::schedule_compact_log_task,
            (h, region_id, index, term, applied),
            (),
        ),
    ensures
        fresh.apply_router@.len() == 0,
        final(h).apply_router@.len() == old(h).apply_router@.len() + 1,
        0 <= i < old(h).apply_router@.len() ==> final(h).apply_router@[i]
            == old(h).apply_router@[i],
        final(h).apply_router@.last().0 == region_id,
        final(h).apply_router@.last().1 == (ApplyTask::CheckCompact {
            region_id,
            voter_replicated_index: index,
            voter_replicated_term: term,
            applied_index: Some(applied),
        }),
{
    assert(final(h).scheduled() == final(h).apply_router@);
    assert(old(h).scheduled() == old(h).apply_router@);
}

/// A string of the engine store is there exactly where its pointer is, and split keys are
/// copied as they are shown.
pub proof fn strings_are_taken<'a>(
    inner: RawCppPtr,
    view: BaseBuffView<'a>,
    s: CppStrWithView<'a>,
    none: bool,
    keys: SplitKeysWithView<'a>,
    copies: Vec<Vec<u8>>,
    i: int,
    given: RawCppPtr,
    address: usize,
)
    requires
        call_ensures(CppStrWithView::new, (inner, view), s),
        call_ensures(CppStrWithView::is_none, (&s,), none),
        call_ensures(SplitKeysWithView::into, (keys,), copies),
        call_ensures(RawCppPtr::into_raw, (given,), address),
    ensures
        s.inner == inner && s.view == view,
        none <==> inner.address() == 0,
        copies@.len() == keys.views().len(),
        0 <= i < copies@.len() ==> copies@[i]@ == keys.views()[i]@,
        address == given.address(),
{
}

/// What is told of a file carries the number of its kind: 0 without a key manager, 1 where it was
/// found, 2 for an error, and of the rest only what belongs to it.
pub proof fn kinds_of_answers(
    res: FileEncryptionRes,
    n: u8,
    bare: FileEncryptionInfoRes,
    message: String,
    error: FileEncryptionInfoRes,
    info: FileEncryptionInfo,
    found: FileEncryptionInfoRes,
)
    requires
        call_ensures(FileEncryptionRes::into, (res,), n),
        call_ensures(FileEncryptionInfoRes::new, (res,), bare),
        call_ensures(FileEncryptionInfoRes::error, (message,), error),
        call_ensures(FileEncryptionInfoRes::from, (info,), found),
    ensures
        res == FileEncryptionRes::Disabled ==> n == 0,
        res == FileEncryptionRes::Found ==> n == 1,
        res == FileEncryptionRes::Error ==> n == 2,
        bare.res == n && bare.method == 0,
        bare.key is None && bare.iv is None && bare.erro_msg is None,
        error.res == 2 && error.method == 0,
        error.key is None && error.iv is None,
        error.erro_msg is Some && error.erro_msg->0@ == message@,
        found.res == 1 && found.method == info.method,
        found.key == Some(info.key) && found.iv == Some(info.iv) && found.erro_msg is None,
{
}

} // verus!
