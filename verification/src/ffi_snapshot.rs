//! Snapshots in the layout in which they are handed to the engine store.

use std::collections::VecDeque;

use vstd::prelude::*;

use crate::bytes;
use crate::bytes_map;
use crate::ffi::{BaseBuffView, WriteCmdCf};
use crate::keys;

verus! {

/// The pairs of one column family of a snapshot, in their order.
pub type SnapshotKV = VecDeque<(Vec<u8>, Vec<u8>)>;

/// The keys and the values of a column family of a snapshot.
pub type SnapshotKVView<'a> = (Vec<BaseBuffView<'a>>, Vec<BaseBuffView<'a>>);

/// Some bytes are viewed: none of the views is null, and each shows its bytes.
pub open spec fn shows(views: Seq<BaseBuffView>, data: Seq<Seq<u8>>) -> bool {
    &&& views.len() == data.len()
    &&& forall|i: int|
        0 <= i < views.len() ==> (#[trigger] views[i])@ == data[i] && !views[i].spec_is_null()
}

/// The keys of some pairs.
pub open spec fn keys_of(kv: Seq<(Seq<u8>, Seq<u8>)>) -> Seq<Seq<u8>> {
    Seq::new(kv.len(), |i: int| kv[i].0)
}

/// The values of some pairs.
pub open spec fn values_of(kv: Seq<(Seq<u8>, Seq<u8>)>) -> Seq<Seq<u8>> {
    Seq::new(kv.len(), |i: int| kv[i].1)
}

/// The pairs of a sorted file with the data prefix taken off their keys.
pub fn gen_snap_kv_data_from_sst(pairs: &Vec<(Vec<u8>, Vec<u8>)>) -> (r: SnapshotKV)
    requires
        forall|i: int| 0 <= i < pairs@.len() ==> keys::is_data_key((#[trigger] pairs@[i]).0@),
    ensures
        r@.len() == pairs@.len(),
        forall|i: int|
            0 <= i < r@.len() ==> (#[trigger] r@[i]).0@ == keys::spec_origin_key(pairs@[i].0@)
                && r@[i].1@ == pairs@[i].1@,
{
    let mut cf_snap: SnapshotKV = VecDeque::new();
    let n: usize = pairs.len();
    let mut i: usize = 0;
    while i < n
        invariant
            i <= n,
            n == pairs@.len(),
            forall|j: int| 0 <= j < pairs@.len() ==> keys::is_data_key((#[trigger] pairs@[j]).0@),
            cf_snap@.len() == i,
            forall|j: int|
                0 <= j < i ==> (#[trigger] cf_snap@[j]).0@ == keys::spec_origin_key(pairs@[j].0@)
                    && cf_snap@[j].1@ == pairs@[j].1@,
        decreases n - i,
    {
        assert(keys::is_data_key(pairs@[i as int].0@));
        let key = bytes::copy_of(keys::origin_key(&pairs[i].0));
        cf_snap.push_back((key, bytes::copy_of(&pairs[i].1)));
        i = i + 1;
    }
    cf_snap
}

/// Views of the keys and the values of a column family.
pub fn gen_snap_kv_data_view<'a>(snap: &'a SnapshotKV) -> (r: SnapshotKVView<'a>)
    ensures
        shows(r.0@, keys_of(bytes_map::pair_views(snap@))),
        shows(r.1@, values_of(bytes_map::pair_views(snap@))),
{
    let n: usize = snap.len();
    let mut keys: Vec<BaseBuffView<'a>> = Vec::with_capacity(n);
    let mut vals: Vec<BaseBuffView<'a>> = Vec::with_capacity(n);
    let ghost p = bytes_map::pair_views(snap@);
    let mut i: usize = 0;
    while i < n
        invariant
            i <= n,
            n == snap@.len(),
            p == bytes_map::pair_views(snap@),
            keys@.len() == i,
            vals@.len() == i,
            forall|j: int|
                0 <= j < i ==> (#[trigger] keys@[j])@ == p[j].0 && !keys@[j].spec_is_null(),
            forall|j: int|
                0 <= j < i ==> (#[trigger] vals@[j])@ == p[j].1 && !vals@[j].spec_is_null(),
        decreases n - i,
    {
        let kv: &'a (Vec<u8>, Vec<u8>) = &snap[i];
        keys.push(BaseBuffView::from(kv.0.as_slice()));
        vals.push(BaseBuffView::from(kv.1.as_slice()));
        i = i + 1;
    }
    (keys, vals)
}

/// A column family of a snapshot as it is handed over.
pub struct SnapshotView<'a> {
    pub keys: Vec<BaseBuffView<'a>>,
    pub vals: Vec<BaseBuffView<'a>>,
    pub cf: u8,
    pub len: u64,
}

/// A snapshot, column family by column family.
pub struct SnapshotHelper {
    cf_snaps: Vec<(WriteCmdCf, SnapshotKV)>,
}

impl View for SnapshotHelper {
    type V = Seq<(WriteCmdCf, Seq<(Seq<u8>, Seq<u8>)>)>;

    closed spec fn view(&self) -> Seq<(WriteCmdCf, Seq<(Seq<u8>, Seq<u8>)>)> {
        Seq::new(
            self.cf_snaps@.len(),
            |i: int| (self.cf_snaps@[i].0, bytes_map::pair_views(self.cf_snaps@[i].1@)),
        )
    }
}

/// A column family as it has to be handed over.
pub open spec fn views_cf(v: SnapshotView, cf: WriteCmdCf, kv: Seq<(Seq<u8>, Seq<u8>)>) -> bool {
    &&& shows(v.keys@, keys_of(kv))
    &&& shows(v.vals@, values_of(kv))
    &&& v.cf == cf.code()
    &&& v.len == kv.len()
}

impl SnapshotHelper {
    /// A snapshot without column families.
    pub fn new() -> (r: Self)
        ensures
            r@ == Seq::<(WriteCmdCf, Seq<(Seq<u8>, Seq<u8>)>)>::empty(),
    {
        let r = SnapshotHelper { cf_snaps: Vec::new() };
        assert(r@ =~= Seq::empty());
        r
    }

    /// Adds a column family.
    pub fn add_cf_snap(&mut self, cf_type: WriteCmdCf, snap_kv: SnapshotKV)
        ensures
            final(self)@ == old(self)@.push((cf_type, bytes_map::pair_views(snap_kv@))),
    {
        let ghost v = self@;
        self.cf_snaps.push((cf_type, snap_kv));
        assert(self@ =~= v.push((cf_type, bytes_map::pair_views(snap_kv@))));
    }

    /// The snapshot as it is handed over.
    pub fn gen_snapshot_view<'a>(&'a self) -> (r: Vec<SnapshotView<'a>>)
        ensures
            r@.len() == self@.len(),
            forall|i: int| 0 <= i < r@.len() ==> views_cf(#[trigger] r@[i], self@[i].0, self@[i].1),
    {
        let n: usize = self.cf_snaps.len();
        let mut snap_view: Vec<SnapshotView<'a>> = Vec::new();
        let mut i: usize = 0;
        while i < n
            invariant
                i <= n,
                n == self.cf_snaps@.len(),
                snap_view@.len() == i,
                forall|j: int|
                    0 <= j < i ==> views_cf(#[trigger] snap_view@[j], self@[j].0, self@[j].1),
            decreases n - i,
        {
            let cf_snap: &'a (WriteCmdCf, SnapshotKV) = &self.cf_snaps[i];
            let (keys, vals) = gen_snap_kv_data_view(&cf_snap.1);
            let len: u64 = keys.len() as u64;
            snap_view.push(SnapshotView { keys, vals, cf: cf_snap.0.into(), len });
            i = i + 1;
        }
        snap_view
    }

    /// Whether the snapshot has no column family.
    pub fn empty(&self) -> (r: bool)
        ensures
            r == (self@.len() == 0),
    {
        self.cf_snaps.len() == 0
    }
}

impl Default for SnapshotHelper {
    fn default() -> (r: Self)
        ensures
            r@ == Seq::<(WriteCmdCf, Seq<(Seq<u8>, Seq<u8>)>)>::empty(),
    {
        SnapshotHelper::new()
    }
}

} // verus!
