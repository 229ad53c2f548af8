//! A cluster of engine stores, one for each node.

use std::collections::HashMap;

use vstd::prelude::*;

use crate::engine_store::{
    EngineStoreServer, EngineStoreServerView, EngineStoreServerWrap, MockConfig, StoreStats,
};
use crate::ffi::FsStats;

verus! {

/// What a test expects of consistent reads.
#[derive(Clone, Copy, Debug, PartialEq, Eq, Structural)]
pub struct TestData {
    pub expected_leader_safe_ts: u64,
    pub expected_self_safe_ts: u64,
}

/// An engine store with what connects it to its proxy.
pub struct FFIHelperSet {
    pub engine_store_server_wrap: EngineStoreServerWrap,
    /// The address of the engine store's functions.
    pub engine_store_server_helper_ptr: isize,
}

#[verifier::ext_equal]
pub struct FFIHelperSetView {
    pub server: EngineStoreServerView,
    pub maybe_proxy_helper: Option<usize>,
    pub cluster_ptr: isize,
    pub helper_ptr: isize,
}

impl View for FFIHelperSet {
    type V = FFIHelperSetView;

    open spec fn view(&self) -> FFIHelperSetView {
        FFIHelperSetView {
            server: self.engine_store_server_wrap.engine_store_server@,
            maybe_proxy_helper: self.engine_store_server_wrap.maybe_proxy_helper,
            cluster_ptr: self.engine_store_server_wrap.cluster_ptr,
            helper_ptr: self.engine_store_server_helper_ptr,
        }
    }
}

impl FFIHelperSetView {
    /// The set with its store on a node.
    pub open spec fn on_node(self, node_id: u64) -> FFIHelperSetView {
        FFIHelperSetView { server: EngineStoreServerView { id: node_id, ..self.server }, ..self }
    }
}

/// The views of a list of sets.
pub open spec fn set_views(v: Seq<FFIHelperSet>) -> Seq<FFIHelperSetView> {
    Seq::new(v.len(), |i: int| v[i]@)
}

/// The engine stores of a cluster: those that wait for a node, and those that have one.
pub struct ClusterExt {
    pub ffi_helper_lst: Vec<FFIHelperSet>,
    pub ffi_helper_set: HashMap<u64, FFIHelperSet>,
    pub test_data: TestData,
}

#[verifier::ext_equal]
pub struct ClusterExtView {
    pub waiting: Seq<FFIHelperSetView>,
    pub nodes: Map<u64, FFIHelperSetView>,
    pub test_data: TestData,
}

impl View for ClusterExt {
    type V = ClusterExtView;

    open spec fn view(&self) -> ClusterExtView {
        ClusterExtView {
            waiting: set_views(self.ffi_helper_lst@),
            nodes: self.ffi_helper_set@.map_values(|s: FFIHelperSet| s@),
            test_data: self.test_data,
        }
    }
}

impl ClusterExtView {
    /// A waiting store got a node.
    pub open spec fn registered(self, index: int, node_id: u64) -> ClusterExtView {
        ClusterExtView {
            waiting: self.waiting.remove(index),
            nodes: self.nodes.insert(node_id, self.waiting[index].on_node(node_id)),
            ..self
        }
    }

    /// The first waiting stores got nodes, one after the other.
    pub open spec fn all_registered(self, ids: Seq<u64>) -> ClusterExtView
        decreases ids.len(),
    {
        if ids.len() == 0 {
            self
        } else {
            self.all_registered(ids.drop_last()).registered(0, ids.last())
        }
    }
}

impl ClusterExt {
    pub fn new() -> (r: Self)
        ensures
            r@ == (ClusterExtView {
                waiting: Seq::empty(),
                nodes: Map::empty(),
                test_data: TestData { expected_leader_safe_ts: 0, expected_self_safe_ts: 0 },
            }),
    {
        broadcast use vstd::std_specs::hash::group_hash_axioms;

        let r = ClusterExt {
            ffi_helper_lst: Vec::new(),
            ffi_helper_set: HashMap::new(),
            test_data: TestData { expected_leader_safe_ts: 0, expected_self_safe_ts: 0 },
        };
        assert(r@.waiting =~= Seq::empty());
        assert(r@.nodes =~= Map::empty());
        r
    }

    /// An engine store, connected to its proxy and its cluster.
    pub fn make_ffi_helper_set_no_bind(
        id: u64,
        engines: bool,
        proxy_helper: usize,
        helper_ptr: isize,
        cluster_ptr: isize,
        proxy_compat: bool,
        mock_cfg: MockConfig,
    ) -> (r: FFIHelperSet)
        ensures
            r@ == (FFIHelperSetView {
                server: EngineStoreServerView {
                    id,
                    engines,
                    regions: Map::empty(),
                    proxy_compat,
                    mock_cfg,
                    region_states: Map::empty(),
                    pages: Map::empty(),
                },
                maybe_proxy_helper: Some(proxy_helper),
                cluster_ptr,
                helper_ptr,
            }),
    {
        let mut engine_store_server = EngineStoreServer::new(id, engines);
        engine_store_server.proxy_compat = proxy_compat;
        engine_store_server.mock_cfg = mock_cfg;
        FFIHelperSet {
            engine_store_server_wrap: EngineStoreServerWrap::new(
                engine_store_server,
                Some(proxy_helper),
                cluster_ptr,
            ),
            engine_store_server_helper_ptr: helper_ptr,
        }
    }

    /// Gives a waiting store its node: the one at an index, or the last one.
    pub fn register_ffi_helper_set(&mut self, index: Option<usize>, node_id: u64)
        requires
            match index {
                Some(i) => i < old(self)@.waiting.len(),
                None => old(self)@.waiting.len() > 0,
            },
        ensures
            final(self)@ == old(self)@.registered(
                match index {
                    Some(i) => i as int,
                    None => old(self)@.waiting.len() - 1,
                },
                node_id,
            ),
    {
        broadcast use vstd::std_specs::hash::group_hash_axioms;

        let ghost s = self@;
        let i: usize = match index {
            Some(i) => i,
            None => self.ffi_helper_lst.len() - 1,
        };
        let mut set = self.ffi_helper_lst.remove(i);
        set.engine_store_server_wrap.engine_store_server.id = node_id;
        let ghost v = set@;
        assert(v == s.waiting[i as int].on_node(node_id));
        self.ffi_helper_set.insert(node_id, set);
        assert(self@.waiting =~= s.waiting.remove(i as int));
        assert(self@.nodes =~= s.nodes.insert(node_id, v));
    }
}

/// A key-value engine that is connected to an engine store.
#[derive(Clone, Copy, Debug, PartialEq, Eq, Structural)]
pub struct TiFlashEngine {
    /// The address of the engine store's functions.
    pub engine_store_server_helper: isize,
    /// The address of the engine below.
    pub rocks: usize,
}

impl TiFlashEngine {
    /// The statistics of the engine store that the engine is connected to.
    pub fn get_store_stats(&self, store: &EngineStoreServerWrap) -> (r: StoreStats)
        ensures
            r.fs_stats == (FsStats {
                capacity_size: 444444,
                used_size: 111111,
                avail_size: 333333,
                ok: 1,
            }),
            r.engine_bytes_written == 0,
            r.engine_keys_written == 0,
            r.engine_bytes_read == 0,
            r.engine_keys_read == 0,
    {
        store.ffi_handle_compute_store_stats()
    }
}

/// A cluster: the engines of its nodes, and its engine stores.
pub struct Cluster {
    pub engines: HashMap<u64, TiFlashEngine>,
    pub cluster_ext: ClusterExt,
}

/// Numbers in rising order, each once.
pub open spec fn rises(v: Seq<u64>) -> bool {
    forall|i: int, j: int| 0 <= i < j < v.len() ==> #[trigger] v[i] < #[trigger] v[j]
}

/// The numbers of a list in rising order.
fn sort_ids(ids: &Vec<u64>) -> (r: Vec<u64>)
    requires
        ids@.no_duplicates(),
    ensures
        rises(r@),
        r@.len() == ids@.len(),
        forall|x: u64| #[trigger] r@.contains(x) <==> ids@.contains(x),
{
    let mut r: Vec<u64> = Vec::new();
    let n: usize = ids.len();
    let mut i: usize = 0;
    while i < n
        invariant
            i <= n,
            n == ids@.len(),
            ids@.no_duplicates(),
            rises(r@),
            r@.len() == i,
            forall|x: u64| #[trigger] r@.contains(x) <==> ids@.take(i as int).contains(x),
        decreases n - i,
    {
        let x: u64 = ids[i];
        let ghost before = r@;
        let mut p: usize = 0;
        while p < r.len() && r[p] < x
            invariant
                p <= r@.len(),
                rises(r@),
                r@ == before,
                forall|j: int| 0 <= j < p ==> #[trigger] r@[j] < x,
            decreases r@.len() - p,
        {
            p = p + 1;
        }
        proof {
            let t = ids@.take(i as int);
            assert(!before.contains(x)) by {
                if before.contains(x) {
                    assert(t.contains(x));
                    let j = t.index_of(x);
                    assert(ids@[j] == ids@[i as int]);
                }
            }
            assert forall|j: int| p <= j < before.len() implies x < #[trigger] before[j] by {
                assert(before.contains(before[j]));
                if p < j {
                    assert(before[p as int] < before[j]);
                }
                assert(before.contains(before[p as int]));
            }
        }
        r.insert(p, x);
        proof {
            let after = r@;
            assert(after =~= before.insert(p as int, x));
            assert forall|a: int, b: int| 0 <= a < b < after.len() implies #[trigger] after[a]
                < #[trigger] after[b] by {
                let c = if a < p { a } else { a - 1 };
                let d = if b < p { b } else { b - 1 };
                if a != p && b != p {
                    assert(before[c] < before[d]);
                } else if a == p {
                    assert(x < before[d]);
                } else {
                    assert(before[c] < x);
                }
            }
            let t = ids@.take(i as int);
            let u = ids@.take(i + 1);
            assert forall|y: u64| #[trigger] after.contains(y) <==> u.contains(y) by {
                if after.contains(y) {
                    let a = after.index_of(y);
                    if a == p {
                        assert(u[i as int] == y);
                    } else {
                        let c = if a < p { a } else { a - 1 };
                        assert(before[c] == y);
                        assert(before.contains(y));
                        assert(t.contains(y));
                        let b = t.index_of(y);
                        assert(u[b] == y);
                    }
                }
                if u.contains(y) {
                    let b = u.index_of(y);
                    if b == i {
                        assert(after[p as int] == y);
                    } else {
                        assert(t[b] == y);
                        assert(t.contains(y));
                        assert(before.contains(y));
                        let c = before.index_of(y);
                        let a = if c < p { c } else { c + 1 };
                        assert(after[a] == y);
                    }
                }
            }
        }
        i = i + 1;
    }
    assert(ids@.take(n as int) =~= ids@);
    r
}

proof fn registering_takes_one(s: ClusterExtView, ids: Seq<u64>)
    requires
        ids.len() <= s.waiting.len(),
    ensures
        s.all_registered(ids).waiting.len() == s.waiting.len() - ids.len(),
        s.all_registered(ids).test_data == s.test_data,
    decreases ids.len(),
{
    if ids.len() > 0 {
        registering_takes_one(s, ids.drop_last());
    }
}

impl Cluster {
    /// A store waits for a node; it gets its number with the node.
    pub fn create_ffi_helper_set(
        &mut self,
        proxy_helper: usize,
        helper_ptr: isize,
        cluster_ptr: isize,
        proxy_compat: bool,
        mock_cfg: MockConfig,
    )
        requires
            helper_ptr != 0,
        ensures
            final(self).engines == old(self).engines,
            final(self).cluster_ext@ == (ClusterExtView {
                waiting: old(self).cluster_ext@.waiting.push(
                    (FFIHelperSetView {
                        server: EngineStoreServerView {
                            id: 0,
                            engines: true,
                            regions: Map::empty(),
                            proxy_compat,
                            mock_cfg,
                            region_states: Map::empty(),
                            pages: Map::empty(),
                        },
                        maybe_proxy_helper: Some(proxy_helper),
                        cluster_ptr,
                        helper_ptr,
                    }),
                ),
                ..old(self).cluster_ext@
            }),
    {
        let ghost s = self.cluster_ext@;
        let set = ClusterExt::make_ffi_helper_set_no_bind(
            0,
            true,
            proxy_helper,
            helper_ptr,
            cluster_ptr,
            proxy_compat,
            mock_cfg,
        );
        let ghost v = set@;
        self.cluster_ext.ffi_helper_lst.push(set);
        assert(self.cluster_ext@.waiting =~= s.waiting.push(v));
    }

    /// Gives a waiting store its node.
    pub fn register_ffi_helper_set(&mut self, index: Option<usize>, node_id: u64)
        requires
            match index {
                Some(i) => i < old(self).cluster_ext@.waiting.len(),
                None => old(self).cluster_ext@.waiting.len() > 0,
            },
        ensures
            final(self).engines == old(self).engines,
            final(self).cluster_ext@ == old(self).cluster_ext@.registered(
                match index {
                    Some(i) => i as int,
                    None => old(self).cluster_ext@.waiting.len() - 1,
                },
                node_id,
            ),
    {
        self.cluster_ext.register_ffi_helper_set(index, node_id);
    }

    /// The numbers of the nodes that have engines, in rising order.
    pub fn node_ids(&self) -> (r: Vec<u64>)
        ensures
            rises(r@),
            forall|x: u64| #[trigger] r@.contains(x) <==> self.engines@.contains_key(x),
    {
        broadcast use vstd::std_specs::hash::group_hash_axioms;

        let mut ids: Vec<u64> = Vec::new();
        for k in it: self.engines.keys()
            invariant
                it.index() == ids@.len(),
                forall|i: int| 0 <= i < ids@.len() ==> ids@[i] == *it.seq()[i],
                forall|i: int|
                    0 <= i < ids@.len() ==> self.engines@.contains_key(#[trigger] ids@[i]),
        {
            ids.push(*k);
        }
        assert(forall|k: u64| #[trigger] self.engines@.contains_key(k) ==> ids@.contains(k));
        let r = sort_ids(&ids);
        assert forall|x: u64| #[trigger] r@.contains(x) <==> self.engines@.contains_key(x) by {
            if r@.contains(x) {
                assert(ids@.contains(x));
                assert(self.engines@.contains_key(ids@[ids@.index_of(x)]));
            }
            if self.engines@.contains_key(x) {
                assert(ids@.contains(x));
            }
        }
        r
    }

    /// The numbers of the nodes whose engine stores are gone through: the given ones, or all that
    /// have engines, each once.
    pub fn helper_ids(&self, store_ids: Option<Vec<u64>>) -> (r: Vec<u64>)
        ensures
            match store_ids {
                Some(ids) => r@ == ids@,
                None => {
                    &&& rises(r@)
                    &&& r@.no_duplicates()
                    &&& forall|x: u64| #[trigger]
                        r@.contains(x) <==> self.engines@.contains_key(x)
                },
            },
    {
        match store_ids {
            Some(ids) => ids,
            None => self.node_ids(),
        }
    }

    /// Gives the first waiting stores the nodes that have engines, in the order of the nodes'
    /// numbers.
    pub fn bootstrap_ffi_helper_set(&mut self)
        requires
            old(self).engines@.dom().finite(),
            old(self).engines@.dom().len() <= old(self).cluster_ext@.waiting.len(),
        ensures
            final(self).engines == old(self).engines,
            exists|ids: Seq<u64>|
                {
                    &&& #[trigger] rises(ids)
                    &&& forall|x: u64| #[trigger]
                        ids.contains(x) <==> old(self).engines@.contains_key(x)
                    &&& final(self).cluster_ext@ == old(self).cluster_ext@.all_registered(ids)
                },
    {
        let ids = self.node_ids();
        let ghost s = self.cluster_ext@;
        let ghost e = self.engines;
        proof {
            assert(ids@.no_duplicates());
            ids@.unique_seq_to_set();
            assert(ids@.to_set() =~= e@.dom()) by {
                assert forall|x: u64| ids@.to_set().contains(x) == e@.dom().contains(x) by {
                    assert(ids@.contains(x) == e@.contains_key(x));
                }
            }
        }
        let n: usize = ids.len();
        let mut i: usize = 0;
        assert(ids@.take(0) =~= Seq::empty());
        while i < n
            invariant
                i <= n,
                n == ids@.len(),
                n <= s.waiting.len(),
                self.engines == e,
                self.cluster_ext@ == s.all_registered(ids@.take(i as int)),
            decreases n - i,
        {
            proof {
                registering_takes_one(s, ids@.take(i as int));
                assert(ids@.take(i + 1).drop_last() =~= ids@.take(i as int));
                assert(ids@.take(i + 1).last() == ids@[i as int]);
            }
            self.register_ffi_helper_set(Some(0), ids[i]);
            i = i + 1;
        }
        assert(ids@.take(n as int) =~= ids@);
    }

    /// Notes what is expected of consistent reads.
    pub fn set_expected_safe_ts(&mut self, leader_safe_ts: u64, self_safe_ts: u64)
        ensures
            final(self).engines == old(self).engines,
            final(self).cluster_ext@ == (ClusterExtView {
                test_data: TestData {
                    expected_leader_safe_ts: leader_safe_ts,
                    expected_self_safe_ts: self_safe_ts,
                },
                ..old(self).cluster_ext@
            }),
    {
        self.cluster_ext.test_data = TestData {
            expected_leader_safe_ts: leader_safe_ts,
            expected_self_safe_ts: self_safe_ts,
        };
    }

    /// Whether consistent reads moved on as expected.
    pub fn safe_ts_as_expected(&self, self_safe_ts: u64, leader_safe_ts: u64) -> (r: bool)
        ensures
            r == (self_safe_ts == self.cluster_ext@.test_data.expected_self_safe_ts
                && leader_safe_ts == self.cluster_ext@.test_data.expected_leader_safe_ts),
    {
        self_safe_ts == self.cluster_ext.test_data.expected_self_safe_ts && leader_safe_ts
            == self.cluster_ext.test_data.expected_leader_safe_ts
    }

    /// The engine of a node.
    pub fn get_tiflash_engine(&self, node_id: u64) -> (r: TiFlashEngine)
        requires
            self.engines@.contains_key(node_id),
        ensures
            r == self.engines@[node_id],
    {
        broadcast use vstd::std_specs::hash::group_hash_axioms;

        *self.engines.get(&node_id).unwrap()
    }

    /// The address of the engine below the engine of a node.
    pub fn get_raw_engine(&self, node_id: u64) -> (r: usize)
        requires
            self.engines@.contains_key(node_id),
        ensures
            r == self.engines@[node_id].rocks,
    {
        self.get_tiflash_engine(node_id).rocks
    }
}

} // verus!
