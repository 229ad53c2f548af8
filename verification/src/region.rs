//! A region as the engine store holds it: the keys in memory, and what of them has
//! still to be written to the engine below.

use vstd::prelude::*;

use crate::bytes;
use crate::bytes_map;
use crate::bytes_map::{BytesMap, BytesSet};
use crate::ffi::ColumnFamilyType;
use crate::keys;
use crate::messages::{Peer, RaftApplyState, RaftTruncatedState, Region, RegionView};

verus! {

pub type RegionId = u64;

/// The keys of one column family of a region.
#[verifier::ext_equal]
pub struct CfView {
    /// What is in memory.
    pub data: Map<Seq<u8>, Seq<u8>>,
    /// What was deleted since the last flush.
    pub deleted: Set<Seq<u8>>,
    /// What was written since the last flush.
    pub written: Map<Seq<u8>, Seq<u8>>,
}

impl CfView {
    pub open spec fn spec_empty() -> CfView {
        CfView { data: Map::empty(), deleted: Set::empty(), written: Map::empty() }
    }

    pub open spec fn put(self, key: Seq<u8>, value: Seq<u8>) -> CfView {
        CfView {
            data: self.data.insert(key, value),
            deleted: self.deleted.remove(key),
            written: self.written.insert(key, value),
        }
    }

    /// Puts every pair of a map.
    pub open spec fn put_all(self, kvs: Map<Seq<u8>, Seq<u8>>) -> CfView {
        CfView {
            data: self.data.union_prefer_right(kvs),
            deleted: self.deleted.difference(kvs.dom()),
            written: self.written.union_prefer_right(kvs),
        }
    }

    /// The key leaves memory, and a flush deletes it from the engine.
    pub open spec fn del(self, key: Seq<u8>) -> CfView {
        CfView {
            data: self.data.remove(key),
            deleted: self.deleted.insert(key),
            written: self.written.remove(key),
        }
    }

    /// Nothing is left to be written to the engine.
    pub open spec fn flushed(self) -> CfView {
        CfView { deleted: Set::empty(), written: Map::empty(), ..self }
    }
}

/// A region as a mathematical value; it has one entry in `cfs` for each column family.
#[verifier::ext_equal]
pub struct MockRegionView {
    pub region: RegionView,
    pub peer: Peer,
    pub cfs: Seq<CfView>,
    pub apply_state: RaftApplyState,
    pub applied_term: u64,
}

impl MockRegionView {
    /// A region with nothing in it.
    pub open spec fn spec_new(meta: RegionView) -> MockRegionView {
        MockRegionView {
            region: meta,
            peer: Peer::spec_default(),
            cfs: Seq::new(3, |i: int| CfView::spec_empty()),
            apply_state: RaftApplyState::spec_default(),
            applied_term: 0,
        }
    }

    pub open spec fn applied(self, index: u64, term: u64) -> MockRegionView {
        MockRegionView {
            apply_state: RaftApplyState { applied_index: index, ..self.apply_state },
            applied_term: term,
            ..self
        }
    }

    pub open spec fn truncated(self, index: u64, term: u64) -> MockRegionView {
        MockRegionView {
            apply_state: RaftApplyState {
                truncated_state: RaftTruncatedState { index, term },
                ..self.apply_state
            },
            ..self
        }
    }

    pub open spec fn put(self, cf: int, key: Seq<u8>, value: Seq<u8>) -> MockRegionView {
        MockRegionView { cfs: self.cfs.update(cf, self.cfs[cf].put(key, value)), ..self }
    }

    pub open spec fn put_all(self, cf: int, kvs: Map<Seq<u8>, Seq<u8>>) -> MockRegionView {
        MockRegionView { cfs: self.cfs.update(cf, self.cfs[cf].put_all(kvs)), ..self }
    }

    /// Puts pairs one after the other.
    pub open spec fn put_each(self, cf: int, kvs: Seq<(Seq<u8>, Seq<u8>)>) -> MockRegionView {
        self.put_all(cf, bytes_map::map_of(kvs))
    }

    pub open spec fn del(self, cf: int, key: Seq<u8>) -> MockRegionView {
        MockRegionView { cfs: self.cfs.update(cf, self.cfs[cf].del(key)), ..self }
    }

    /// The region without its keys in memory.
    pub open spec fn emptied(self) -> MockRegionView {
        MockRegionView {
            cfs: Seq::new(3, |i: int| CfView { data: Map::empty(), ..self.cfs[i] }),
            ..self
        }
    }

    /// The region once everything was written to the engine.
    pub open spec fn flushed(self) -> MockRegionView {
        MockRegionView { cfs: Seq::new(3, |i: int| self.cfs[i].flushed()), ..self }
    }

    /// What a flush writes to the engine: of each column family first the keys that were
    /// written and not deleted, then those that were deleted and not written.
    pub open spec fn flush_writes(self) -> Seq<DbWriteView> {
        cf_writes(self.cfs[0], ColumnFamilyType::Lock) + cf_writes(
            self.cfs[1],
            ColumnFamilyType::Write,
        ) + cf_writes(self.cfs[2], ColumnFamilyType::Default)
    }
}

/// A change to the engine below.
#[derive(Debug)]
pub enum DbWrite {
    Put { cf: ColumnFamilyType, key: Vec<u8>, value: Vec<u8> },
    Delete { cf: ColumnFamilyType, key: Vec<u8> },
}

pub enum DbWriteView {
    Put { cf: ColumnFamilyType, key: Seq<u8>, value: Seq<u8> },
    Delete { cf: ColumnFamilyType, key: Seq<u8> },
}

impl View for DbWrite {
    type V = DbWriteView;

    open spec fn view(&self) -> DbWriteView {
        match self {
            DbWrite::Put { cf, key, value } => DbWriteView::Put {
                cf: *cf,
                key: key@,
                value: value@,
            },
            DbWrite::Delete { cf, key } => DbWriteView::Delete { cf: *cf, key: key@ },
        }
    }
}

/// The views of a list of changes.
pub open spec fn db_views(v: Seq<DbWrite>) -> Seq<DbWriteView> {
    Seq::new(v.len(), |i: int| v[i]@)
}

pub open spec fn put_of(c: CfView, cf: ColumnFamilyType, key: Seq<u8>) -> DbWriteView {
    DbWriteView::Put { cf, key: keys::spec_data_key(key), value: c.written[key] }
}

pub open spec fn delete_of(cf: ColumnFamilyType, key: Seq<u8>) -> DbWriteView {
    DbWriteView::Delete { cf, key: keys::spec_data_key(key) }
}

/// The keys that a flush of a column family puts.
pub open spec fn to_put(c: CfView) -> Set<Seq<u8>> {
    c.written.dom().difference(c.deleted)
}

/// The keys that a flush of a column family deletes.
pub open spec fn to_delete(c: CfView) -> Set<Seq<u8>> {
    c.deleted.difference(c.written.dom())
}

/// What a flush of one column family writes to the engine.
pub open spec fn cf_writes(c: CfView, cf: ColumnFamilyType) -> Seq<DbWriteView> {
    let puts = bytes_map::rising(to_put(c));
    let dels = bytes_map::rising(to_delete(c));
    Seq::new(puts.len(), |i: int| put_of(c, cf, puts[i])) + Seq::new(
        dels.len(),
        |i: int| delete_of(cf, dels[i]),
    )
}

/// A region as the engine store holds it.
pub struct MockRegion {
    pub region: Region,
    /// Which of the region's peers is on this store.
    pub peer: Peer,
    /// The keys in memory, by column family.
    pub data: [BytesMap; 3],
    /// Keys that left memory and have still to be deleted from the engine.
    pub pending_delete: [BytesSet; 3],
    /// Keys that have still to be written to the engine.
    pub pending_write: [BytesMap; 3],
    pub apply_state: RaftApplyState,
    pub applied_term: u64,
}

impl View for MockRegion {
    type V = MockRegionView;

    open spec fn view(&self) -> MockRegionView {
        MockRegionView {
            region: self.region@,
            peer: self.peer,
            cfs: Seq::new(
                3,
                |i: int|
                    CfView {
                        data: self.data@[i]@,
                        deleted: self.pending_delete@[i]@,
                        written: self.pending_write@[i]@,
                    },
            ),
            apply_state: self.apply_state,
            applied_term: self.applied_term,
        }
    }
}

fn empty_maps() -> (r: [BytesMap; 3])
    ensures
        forall|i: int| 0 <= i < 3 ==> (#[trigger] r@[i])@ == Map::<Seq<u8>, Seq<u8>>::empty(),
{
    [BytesMap::new(), BytesMap::new(), BytesMap::new()]
}

fn empty_sets() -> (r: [BytesSet; 3])
    ensures
        forall|i: int| 0 <= i < 3 ==> (#[trigger] r@[i])@ == Set::<Seq<u8>>::empty(),
{
    [BytesSet::new(), BytesSet::new(), BytesSet::new()]
}

impl MockRegion {
    /// Notes the last command that was applied.
    pub fn set_applied(&mut self, index: u64, term: u64)
        ensures
            final(self)@ == old(self)@.applied(index, term),
    {
        self.apply_state.applied_index = index;
        self.applied_term = term;
    }

    /// Notes up to where the log was cut off.
    pub fn set_truncated(&mut self, index: u64, term: u64)
        ensures
            final(self)@ == old(self)@.truncated(index, term),
    {
        self.apply_state.truncated_state = RaftTruncatedState { index, term };
    }

    /// A region with nothing in it.
    pub fn new(meta: Region) -> (r: Self)
        ensures
            r@ == MockRegionView::spec_new(meta@),
    {
        let r = MockRegion {
            region: meta,
            peer: Peer::default(),
            data: empty_maps(),
            pending_delete: empty_sets(),
            pending_write: empty_maps(),
            apply_state: RaftApplyState::default(),
            applied_term: 0,
        };
        assert(r@.cfs =~= MockRegionView::spec_new(meta@).cfs);
        r
    }

    /// Takes the keys out of memory; what has to be flushed stays.
    pub fn clear_data(&mut self)
        ensures
            final(self)@ == old(self)@.emptied(),
    {
        self.data = empty_maps();
        assert(self@.cfs =~= old(self)@.emptied().cfs);
    }
}

impl Default for MockRegion {
    fn default() -> (r: Self)
        ensures
            r@ == MockRegionView::spec_new(RegionView::spec_default()),
    {
        MockRegion::new(Region::default())
    }
}

/// Sets a key in memory and marks it to be written to the engine.
pub fn write_kv_in_mem(region: &mut MockRegion, cf: usize, k: &[u8], v: &[u8])
    requires
        cf < 3,
    ensures
        final(region)@ == old(region)@.put(cf as int, k@, v@),
{
    region.pending_delete[cf].remove(k);
    region.data[cf].insert(bytes::copy_of(k), bytes::copy_of(v));
    region.pending_write[cf].insert(bytes::copy_of(k), bytes::copy_of(v));
    assert(region@.cfs =~= old(region)@.put(cf as int, k@, v@).cfs);
}

/// Removes a key from memory and marks it to be deleted from the engine; a write of the key that
/// was still pending is forgotten.
pub fn delete_kv_in_mem(region: &mut MockRegion, cf: usize, k: &[u8])
    requires
        cf < 3,
    ensures
        final(region)@ == old(region)@.del(cf as int, k@),
{
    region.pending_delete[cf].insert(bytes::copy_of(k));
    region.pending_write[cf].remove(k);
    region.data[cf].remove(k);
    assert(region@.cfs =~= old(region)@.del(cf as int, k@).cfs);
}

/// Writes what is pending of one column family to the engine.
fn flush_cf(region: &mut MockRegion, cf: usize, out: &mut Vec<DbWrite>)
    requires
        cf < 3,
    ensures
        final(region)@ == (MockRegionView {
            cfs: old(region)@.cfs.update(cf as int, old(region)@.cfs[cf as int].flushed()),
            ..old(region)@
        }),
        forall|t: ColumnFamilyType|
            t.code() == cf ==> db_views(final(out)@) == db_views(old(out)@) + #[trigger] cf_writes(
                old(region)@.cfs[cf as int],
                t,
            ),
{
    let ghost c = region@.cfs[cf as int];
    let ghost base = db_views(out@);
    let tp = ColumnFamilyType::from(cf);
    let written = region.pending_write[cf].take();
    let deleted = region.pending_delete[cf].take();
    assert(region@.cfs =~= old(region)@.cfs.update(cf as int, c.flushed()));

    let n: usize = written.len();
    let ghost p = written.pairs();
    proof {
        bytes_map::map_of_sorted(p);
    }
    let ghost mut puts: Seq<Seq<u8>> = Seq::empty();
    let mut i: usize = 0;
    assert(db_views(out@) =~= base + Seq::new(0nat, |j: int| put_of(c, tp, puts[j])));
    while i < n
        invariant
            n == p.len(),
            i <= n,
            p == written.pairs(),
            bytes_map::sorted(p),
            c.written == bytes_map::map_of(p),
            c.deleted == deleted@,
            forall|j: int|
                0 <= j < p.len() ==> c.written.contains_key(#[trigger] p[j].0) && c.written[p[j].0]
                    == p[j].1,
            forall|a: int, b: int|
                0 <= a < b < puts.len() ==> bytes::lex_lt(#[trigger] puts[a], #[trigger] puts[b]),
            forall|a: int, j: int|
                0 <= a < puts.len() && i <= j < p.len() ==> bytes::lex_lt(
                    #[trigger] puts[a],
                    #[trigger] p[j].0,
                ),
            forall|j: int|
                0 <= j < i ==> (puts.contains(#[trigger] p[j].0) <==> !c.deleted.contains(p[j].0)),
            forall|k: Seq<u8>| #[trigger]
                puts.contains(k) ==> c.written.contains_key(k) && !c.deleted.contains(k),
            db_views(out@) == base + Seq::new(puts.len(), |j: int| put_of(c, tp, puts[j])),
        decreases n - i,
    {
        let k = written.key_at(i);
        let ghost ki = p[i as int].0;
        if !deleted.contains(k) {
            let ghost before = out@;
            out.push(
                DbWrite::Put { cf: tp, key: keys::data_key(k), value: bytes::copy_of(written.value_at(i)) },
            );
            proof {
                let next = puts.push(ki);
                assert forall|x: Seq<u8>| #[trigger] next.contains(x) implies c.written.contains_key(
                    x,
                ) && !c.deleted.contains(x) by {
                    let a = next.index_of(x);
                    if a < puts.len() {
                        assert(puts[a] == x);
                        assert(puts.contains(x));
                    }
                }
                assert forall|j: int| 0 <= j < i + 1 implies (next.contains(#[trigger] p[j].0)
                    <==> !c.deleted.contains(p[j].0)) by {
                    if j < i {
                        if puts.contains(p[j].0) {
                            let a = puts.index_of(p[j].0);
                            assert(next[a] == p[j].0);
                        }
                    } else {
                        assert(next[puts.len() as int] == ki);
                    }
                }
                assert forall|a: int, j: int|
                    0 <= a < next.len() && i + 1 <= j < p.len() implies bytes::lex_lt(
                    #[trigger] next[a],
                    #[trigger] p[j].0,
                ) by {
                    if a == puts.len() {
                        assert(bytes::lex_lt(p[i as int].0, p[j].0));
                    }
                }
                assert(db_views(out@) =~= db_views(before).push(put_of(c, tp, ki)));
                assert(Seq::new(next.len(), |j: int| put_of(c, tp, next[j])) =~= Seq::new(
                    puts.len(),
                    |j: int| put_of(c, tp, puts[j]),
                ).push(put_of(c, tp, ki)));
                puts = next;
                assert(db_views(out@) =~= base + Seq::new(puts.len(), |j: int| put_of(c, tp, puts[j])));
            }
        } else {
            proof {
                assert(!puts.contains(ki));
            }
        }
        i = i + 1;
    }
    proof {
        assert(bytes_map::lists(puts, to_put(c))) by {
            assert forall|k: Seq<u8>| #[trigger] puts.contains(k) <==> to_put(c).contains(k) by {
                if to_put(c).contains(k) {
                    assert(c.written.contains_key(k));
                    let j = choose|j: int| 0 <= j < p.len() && #[trigger] p[j].0 == k;
                    assert(puts.contains(p[j].0));
                }
            }
        }
        bytes_map::rising_is(puts, to_put(c));
    }
    let ghost base2 = db_views(out@);

    let m: usize = deleted.len();
    let ghost l = deleted.list();
    let ghost mut dels: Seq<Seq<u8>> = Seq::empty();
    let mut i: usize = 0;
    assert(db_views(out@) =~= base2 + Seq::new(0nat, |j: int| delete_of(tp, dels[j])));
    while i < m
        invariant
            m == l.len(),
            i <= m,
            l == deleted.list(),
            bytes_map::lists(l, c.deleted),
            c.written == written@,
            forall|a: int, b: int|
                0 <= a < b < dels.len() ==> bytes::lex_lt(#[trigger] dels[a], #[trigger] dels[b]),
            forall|a: int, j: int|
                0 <= a < dels.len() && i <= j < l.len() ==> bytes::lex_lt(
                    #[trigger] dels[a],
                    #[trigger] l[j],
                ),
            forall|j: int|
                0 <= j < i ==> (dels.contains(#[trigger] l[j]) <==> !c.written.contains_key(l[j])),
            forall|k: Seq<u8>| #[trigger]
                dels.contains(k) ==> c.deleted.contains(k) && !c.written.contains_key(k),
            db_views(out@) == base2 + Seq::new(dels.len(), |j: int| delete_of(tp, dels[j])),
        decreases m - i,
    {
        let k = deleted.at(i);
        let ghost ki = l[i as int];
        proof {
            assert(l.contains(ki));
        }
        if !written.contains_key(k) {
            let ghost before = out@;
            out.push(DbWrite::Delete { cf: tp, key: keys::data_key(k) });
            proof {
                let next = dels.push(ki);
                assert forall|x: Seq<u8>| #[trigger] next.contains(x) implies c.deleted.contains(x)
                    && !c.written.contains_key(x) by {
                    let a = next.index_of(x);
                    if a < dels.len() {
                        assert(dels[a] == x);
                        assert(dels.contains(x));
                    }
                }
                assert forall|j: int| 0 <= j < i + 1 implies (next.contains(#[trigger] l[j])
                    <==> !c.written.contains_key(l[j])) by {
                    if j < i {
                        if dels.contains(l[j]) {
                            let a = dels.index_of(l[j]);
                            assert(next[a] == l[j]);
                        }
                    } else {
                        assert(next[dels.len() as int] == ki);
                    }
                }
                assert(db_views(out@) =~= db_views(before).push(delete_of(tp, ki)));
                assert(Seq::new(next.len(), |j: int| delete_of(tp, next[j])) =~= Seq::new(
                    dels.len(),
                    |j: int| delete_of(tp, dels[j]),
                ).push(delete_of(tp, ki)));
                dels = next;
                assert(db_views(out@) =~= base2 + Seq::new(dels.len(), |j: int| delete_of(tp, dels[j])));
            }
        } else {
            proof {
                assert(!dels.contains(ki));
            }
        }
        i = i + 1;
    }
    proof {
        assert(bytes_map::lists(dels, to_delete(c))) by {
            assert forall|k: Seq<u8>| #[trigger] dels.contains(k) <==> to_delete(c).contains(k) by {
                if to_delete(c).contains(k) {
                    assert(l.contains(k));
                    let j = l.index_of(k);
                    assert(dels.contains(l[j]));
                }
            }
        }
        bytes_map::rising_is(dels, to_delete(c));
        assert forall|t: ColumnFamilyType| t.code() == cf implies db_views(out@) == base
            + #[trigger] cf_writes(c, t) by {
            assert(t == tp);
            assert(db_views(out@) =~= base + cf_writes(c, t));
        }
    }
}

/// Writes what is pending of a region to the engine: returns the changes to make there,
/// in their order, and leaves nothing pending.
pub fn write_to_db_data_by_engine(region: &mut MockRegion) -> (r: Vec<DbWrite>)
    ensures
        final(region)@ == old(region)@.flushed(),
        db_views(r@) == old(region)@.flush_writes(),
{
    let mut out: Vec<DbWrite> = Vec::new();
    assert(db_views(out@) =~= Seq::empty());
    let ghost v = region@;
    flush_cf(region, 0, &mut out);
    flush_cf(region, 1, &mut out);
    flush_cf(region, 2, &mut out);
    proof {
        assert(region@.cfs =~= v.flushed().cfs);
        assert(db_views(out@) =~= db_views(Seq::empty()) + cf_writes(v.cfs[0], ColumnFamilyType::Lock)
            + cf_writes(v.cfs[1], ColumnFamilyType::Write) + cf_writes(
            v.cfs[2],
            ColumnFamilyType::Default,
        ));
        assert(db_views(out@) =~= v.flush_writes());
    }
    out
}

/// Whether a key of a region may move to another one: the keys of the store itself stay.
pub open spec fn movable(meta: RegionView, key: Seq<u8>) -> bool {
    &&& key != keys::prepare_bootstrap()
    &&& key != keys::store_ident()
    &&& meta.covers(key)
}

/// The pairs that move to a region.
pub open spec fn moved(meta: RegionView, kvs: Map<Seq<u8>, Seq<u8>>) -> Map<Seq<u8>, Seq<u8>> {
    Map::new(|k: Seq<u8>| kvs.contains_key(k) && movable(meta, k), |k: Seq<u8>| kvs[k])
}

/// Putting a map and then a pair is putting the map with the pair.
pub proof fn put_after_put_all(
    v: MockRegionView,
    cf: int,
    kvs: Map<Seq<u8>, Seq<u8>>,
    key: Seq<u8>,
    value: Seq<u8>,
)
    requires
        0 <= cf < v.cfs.len(),
    ensures
        v.put_all(cf, kvs).put(cf, key, value) == v.put_all(cf, kvs.insert(key, value)),
{
    let a = v.put_all(cf, kvs).put(cf, key, value);
    let b = v.put_all(cf, kvs.insert(key, value));
    assert(a.cfs[cf].data =~= b.cfs[cf].data);
    assert(a.cfs[cf].deleted =~= b.cfs[cf].deleted);
    assert(a.cfs[cf].written =~= b.cfs[cf].written);
    assert(a.cfs =~= b.cfs);
}

/// Putting an empty map changes nothing.
pub proof fn put_nothing(v: MockRegionView, cf: int)
    requires
        0 <= cf < v.cfs.len(),
    ensures
        v.put_all(cf, Map::empty()) == v,
{
    let a = v.put_all(cf, Map::empty());
    assert(a.cfs[cf].data =~= v.cfs[cf].data);
    assert(a.cfs[cf].deleted =~= v.cfs[cf].deleted);
    assert(a.cfs[cf].written =~= v.cfs[cf].written);
    assert(a.cfs =~= v.cfs);
}

/// Puts the pairs that move to a region.
pub fn put_moved(region: &mut MockRegion, cf: usize, kvs: &BytesMap)
    requires
        cf < 3,
    ensures
        final(region)@ == old(region)@.put_all(cf as int, moved(old(region)@.region, kvs@)),
{
    let ghost v = region@;
    let prepare = keys::prepare_bootstrap_key();
    let ident = keys::store_ident_key();
    let n: usize = kvs.len();
    let ghost p = kvs.pairs();
    let ghost mut m: Map<Seq<u8>, Seq<u8>> = Map::empty();
    let mut i: usize = 0;
    proof {
        put_nothing(v, cf as int);
        assert(p.take(0) =~= Seq::empty());
        assert(m =~= moved(v.region, bytes_map::map_of(p.take(0))));
    }
    while i < n
        invariant
            cf < 3,
            i <= n,
            n == p.len(),
            p == kvs.pairs(),
            prepare@ == keys::prepare_bootstrap(),
            ident@ == keys::store_ident(),
            v.cfs.len() == 3,
            m == moved(v.region, bytes_map::map_of(p.take(i as int))),
            region@ == v.put_all(cf as int, m),
        decreases n - i,
    {
        let k = kvs.key_at(i);
        let ghost kv = p[i as int];
        let ghost done = bytes_map::map_of(p.take(i as int));
        proof {
            assert(p.take(i + 1).drop_last() =~= p.take(i as int));
            assert(bytes_map::map_of(p.take(i + 1)) == done.insert(kv.0, kv.1));
        }
        if !bytes::same(k, &prepare) && !bytes::same(k, &ident) && region.region.contains_key(k) {
            write_kv_in_mem(region, cf, k, kvs.value_at(i));
            proof {
                put_after_put_all(v, cf as int, m, kv.0, kv.1);
                m = m.insert(kv.0, kv.1);
                assert(m =~= moved(v.region, done.insert(kv.0, kv.1)));
            }
        } else {
            assert(m =~= moved(v.region, done.insert(kv.0, kv.1)));
        }
        i = i + 1;
    }
    assert(p.take(n as int) =~= p);
}

/// Puts every pair of a map.
pub fn put_map(region: &mut MockRegion, cf: usize, kvs: &BytesMap)
    requires
        cf < 3,
    ensures
        final(region)@ == old(region)@.put_all(cf as int, kvs@),
{
    let ghost v = region@;
    let n: usize = kvs.len();
    let ghost p = kvs.pairs();
    let mut i: usize = 0;
    proof {
        put_nothing(v, cf as int);
        assert(p.take(0) =~= Seq::empty());
    }
    while i < n
        invariant
            cf < 3,
            i <= n,
            n == p.len(),
            p == kvs.pairs(),
            v.cfs.len() == 3,
            region@ == v.put_each(cf as int, p.take(i as int)),
        decreases n - i,
    {
        write_kv_in_mem(region, cf, kvs.key_at(i), kvs.value_at(i));
        proof {
            let done = p.take(i as int);
            assert(p.take(i + 1).drop_last() =~= done);
            put_after_put_all(v, cf as int, bytes_map::map_of(done), p[i as int].0, p[i as int].1);
        }
        i = i + 1;
    }
    assert(p.take(n as int) =~= p);
}

/// What the engine below holds: values by column family and key.
pub type Disk = Map<(ColumnFamilyType, Seq<u8>), Seq<u8>>;

/// The value of a key, where there is one.
pub open spec fn value_of<K>(m: Map<K, Seq<u8>>, key: K) -> Option<Seq<u8>> {
    if m.contains_key(key) {
        Some(m[key])
    } else {
        None
    }
}

pub open spec fn apply_write(disk: Disk, w: DbWriteView) -> Disk {
    match w {
        DbWriteView::Put { cf, key, value } => disk.insert((cf, key), value),
        DbWriteView::Delete { cf, key } => disk.remove((cf, key)),
    }
}

/// What the engine holds after some changes.
pub open spec fn apply_writes(disk: Disk, ws: Seq<DbWriteView>) -> Disk
    decreases ws.len(),
{
    if ws.len() == 0 {
        disk
    } else {
        apply_write(apply_writes(disk, ws.drop_last()), ws.last())
    }
}

/// The place that a change is about.
pub open spec fn slot_of(w: DbWriteView) -> (ColumnFamilyType, Seq<u8>) {
    match w {
        DbWriteView::Put { cf, key, .. } => (cf, key),
        DbWriteView::Delete { cf, key } => (cf, key),
    }
}

pub(crate) proof fn apply_concat(disk: Disk, a: Seq<DbWriteView>, b: Seq<DbWriteView>)
    ensures
        apply_writes(disk, a + b) == apply_writes(apply_writes(disk, a), b),
    decreases b.len(),
{
    if b.len() == 0 {
        assert(a + b =~= a);
    } else {
        apply_concat(disk, a, b.drop_last());
        assert((a + b).drop_last() =~= a + b.drop_last());
        assert((a + b).last() == b.last());
    }
}

/// A place that no change is about keeps its value.
proof fn apply_elsewhere(disk: Disk, ws: Seq<DbWriteView>, s: (ColumnFamilyType, Seq<u8>))
    requires
        forall|i: int| 0 <= i < ws.len() ==> slot_of(#[trigger] ws[i]) != s,
    ensures
        value_of(apply_writes(disk, ws), s) == value_of(disk, s),
    decreases ws.len(),
{
    if ws.len() > 0 {
        let p = ws.drop_last();
        assert forall|i: int| 0 <= i < p.len() implies slot_of(#[trigger] p[i]) != s by {
            assert(p[i] == ws[i]);
        }
        apply_elsewhere(disk, p, s);
        assert(slot_of(ws[ws.len() - 1]) != s);
    }
}

/// A place has the value that the last change about it gave.
proof fn apply_at(disk: Disk, ws: Seq<DbWriteView>, i: int)
    requires
        0 <= i < ws.len(),
        forall|j: int| i < j < ws.len() ==> slot_of(#[trigger] ws[j]) != slot_of(ws[i]),
    ensures
        value_of(apply_writes(disk, ws), slot_of(ws[i])) == (match ws[i] {
            DbWriteView::Put { value, .. } => Some(value),
            DbWriteView::Delete { .. } => None,
        }),
    decreases ws.len(),
{
    if i < ws.len() - 1 {
        let p = ws.drop_last();
        assert forall|j: int| i < j < p.len() implies slot_of(#[trigger] p[j]) != slot_of(p[i]) by {
            assert(p[j] == ws[j]);
        }
        apply_at(disk, p, i);
        assert(slot_of(ws[ws.len() - 1]) != slot_of(ws[i]));
    }
}

/// What the flush of one column family does to each place of the engine.
proof fn flush_cf_effect(disk: Disk, c: CfView, t: ColumnFamilyType, u: ColumnFamilyType, k: Seq<u8>)
    requires
        c.written.dom().finite(),
        c.deleted.finite(),
    ensures
        value_of(apply_writes(disk, cf_writes(c, t)), (u, keys::spec_data_key(k))) == (if u == t
            && to_put(c).contains(k) {
            Some(c.written[k])
        } else if u == t && to_delete(c).contains(k) {
            None
        } else {
            value_of(disk, (u, keys::spec_data_key(k)))
        }),
{
    broadcast use bytes::lex_lt_asym;

    let ws = cf_writes(c, t);
    let puts = bytes_map::rising(to_put(c));
    let dels = bytes_map::rising(to_delete(c));
    bytes_map::rising_lists(to_put(c));
    bytes_map::rising_lists(to_delete(c));
    let s = (u, keys::spec_data_key(k));
    assert forall|x: Seq<u8>| keys::spec_data_key(x) == keys::spec_data_key(k) implies x == k by {
        keys::data_key_round_trip(x, k);
        keys::data_key_round_trip(k, x);
    }
    assert forall|i: int| 0 <= i < ws.len() implies #[trigger] slot_of(ws[i]) == (
        t,
        keys::spec_data_key(if i < puts.len() { puts[i] } else { dels[i - puts.len()] }),
    ) by {}
    if u == t && to_put(c).contains(k) {
        assert(puts.contains(k));
        let i = puts.index_of(k);
        assert forall|j: int| i < j < ws.len() implies slot_of(#[trigger] ws[j]) != slot_of(ws[i]) by {
            if j < puts.len() {
                assert(bytes::lex_lt(puts[i], puts[j]));
            } else {
                assert(dels.contains(dels[j - puts.len()]));
            }
        }
        apply_at(disk, ws, i);
    } else if u == t && to_delete(c).contains(k) {
        assert(dels.contains(k));
        let i = dels.index_of(k) + puts.len();
        assert forall|j: int| i < j < ws.len() implies slot_of(#[trigger] ws[j]) != slot_of(ws[i]) by {
            assert(bytes::lex_lt(dels[i - puts.len()], dels[j - puts.len()]));
        }
        apply_at(disk, ws, i);
    } else {
        assert forall|i: int| 0 <= i < ws.len() implies slot_of(#[trigger] ws[i]) != s by {
            if slot_of(ws[i]) == s {
                if i < puts.len() {
                    assert(puts.contains(puts[i]));
                } else {
                    assert(dels.contains(dels[i - puts.len()]));
                }
            }
        }
        apply_elsewhere(disk, ws, s);
    }
}

/// The keys of one column family in memory are what the engine will hold once the
/// pending writes have reached it; no key is pending both to be written and to be deleted.
pub open spec fn cf_in_sync(c: CfView, t: ColumnFamilyType, disk: Disk) -> bool {
    forall|k: Seq<u8>|
        {
            let below = value_of(disk, (t, keys::spec_data_key(k)));
            if c.deleted.contains(k) {
                (#[trigger] value_of(c.data, k)) is None && !c.written.contains_key(k)
            } else if c.written.contains_key(k) {
                value_of(c.data, k) == Some(c.written[k])
            } else {
                value_of(c.data, k) == below
            }
        }
}

/// The keys of a region in memory are what the engine will hold once the pending writes
/// have reached it.
pub open spec fn in_sync(v: MockRegionView, disk: Disk) -> bool {
    &&& v.cfs.len() == 3
    &&& cf_in_sync(v.cfs[0], ColumnFamilyType::Lock, disk)
    &&& cf_in_sync(v.cfs[1], ColumnFamilyType::Write, disk)
    &&& cf_in_sync(v.cfs[2], ColumnFamilyType::Default, disk)
}

/// Finitely many keys are pending.
pub open spec fn pending_finite(v: MockRegionView) -> bool {
    forall|i: int|
        0 <= i < 3 ==> (#[trigger] v.cfs[i]).written.dom().finite() && v.cfs[i].deleted.finite()
}

/// Writing or deleting a key in memory keeps a region in step with the engine.
pub proof fn writes_keep_in_sync(
    v: MockRegionView,
    disk: Disk,
    cf: int,
    key: Seq<u8>,
    value: Seq<u8>,
)
    requires
        in_sync(v, disk),
        0 <= cf < 3,
    ensures
        in_sync(v.put(cf, key, value), disk),
        in_sync(v.del(cf, key), disk),
{
    let t = if cf == 0 {
        ColumnFamilyType::Lock
    } else if cf == 1 {
        ColumnFamilyType::Write
    } else {
        ColumnFamilyType::Default
    };
    let c = v.cfs[cf];
    assert forall|k: Seq<u8>|
        {
            let below = value_of(disk, (t, keys::spec_data_key(k)));
            if c.put(key, value).deleted.contains(k) {
                (#[trigger] value_of(c.put(key, value).data, k)) is None
                    && !c.put(key, value).written.contains_key(k)
            } else if c.put(key, value).written.contains_key(k) {
                value_of(c.put(key, value).data, k) == Some(c.put(key, value).written[k])
            } else {
                value_of(c.put(key, value).data, k) == below
            }
        } by {
        assert(value_of(c.data, k) is None || value_of(c.data, k) is Some);
    }
    assert forall|k: Seq<u8>|
        {
            let below = value_of(disk, (t, keys::spec_data_key(k)));
            if c.del(key).deleted.contains(k) {
                (#[trigger] value_of(c.del(key).data, k)) is None
                    && !c.del(key).written.contains_key(k)
            } else if c.del(key).written.contains_key(k) {
                value_of(c.del(key).data, k) == Some(c.del(key).written[k])
            } else {
                value_of(c.del(key).data, k) == below
            }
        } by {
        assert(value_of(c.data, k) is None || value_of(c.data, k) is Some);
    }
}

/// Putting many keys at once keeps a region in step with the engine.
pub proof fn put_all_keeps_in_sync(
    v: MockRegionView,
    disk: Disk,
    cf: int,
    kvs: Map<Seq<u8>, Seq<u8>>,
)
    requires
        in_sync(v, disk),
        0 <= cf < 3,
    ensures
        in_sync(v.put_all(cf, kvs), disk),
{
    let t = if cf == 0 {
        ColumnFamilyType::Lock
    } else if cf == 1 {
        ColumnFamilyType::Write
    } else {
        ColumnFamilyType::Default
    };
    let c = v.cfs[cf];
    let d = c.put_all(kvs);
    assert forall|k: Seq<u8>|
        {
            let below = value_of(disk, (t, keys::spec_data_key(k)));
            if d.deleted.contains(k) {
                (#[trigger] value_of(d.data, k)) is None && !d.written.contains_key(k)
            } else if d.written.contains_key(k) {
                value_of(d.data, k) == Some(d.written[k])
            } else {
                value_of(d.data, k) == below
            }
        } by {
        assert(value_of(c.data, k) is None || value_of(c.data, k) is Some);
    }
}

/// After a flush the engine holds what is in memory, and nothing else of the column
/// families' keys: what was written is there, and what was deleted is gone.
pub proof fn flush_makes_durable(v: MockRegionView, disk: Disk, k: Seq<u8>)
    requires
        in_sync(v, disk),
        pending_finite(v),
    ensures
        ({
            let after = apply_writes(disk, v.flush_writes());
            let key = keys::spec_data_key(k);
            &&& value_of(after, (ColumnFamilyType::Lock, key)) == value_of(v.flushed().cfs[0].data, k)
            &&& value_of(after, (ColumnFamilyType::Write, key)) == value_of(v.flushed().cfs[1].data, k)
            &&& value_of(after, (ColumnFamilyType::Default, key)) == value_of(
                v.flushed().cfs[2].data,
                k,
            )
        }),
{
    let key = keys::spec_data_key(k);
    let a = cf_writes(v.cfs[0], ColumnFamilyType::Lock);
    let b = cf_writes(v.cfs[1], ColumnFamilyType::Write);
    let c = cf_writes(v.cfs[2], ColumnFamilyType::Default);
    let d1 = apply_writes(disk, a);
    let d2 = apply_writes(d1, b);
    apply_concat(disk, a + b, c);
    apply_concat(disk, a, b);
    assert(apply_writes(disk, v.flush_writes()) == apply_writes(d2, c));
    flush_slots(disk, d1, v.cfs[0], ColumnFamilyType::Lock, k);
    flush_slots(d1, d2, v.cfs[1], ColumnFamilyType::Write, k);
    flush_slots(d2, apply_writes(d2, c), v.cfs[2], ColumnFamilyType::Default, k);
    assert(value_of(v.cfs[0].data, k) is None || value_of(v.cfs[0].data, k) is Some);
    assert(value_of(v.cfs[1].data, k) is None || value_of(v.cfs[1].data, k) is Some);
    assert(value_of(v.cfs[2].data, k) is None || value_of(v.cfs[2].data, k) is Some);
}

/// A region that is in step with the engine stays so when it is flushed.
pub proof fn flush_keeps_in_sync(v: MockRegionView, disk: Disk)
    requires
        in_sync(v, disk),
        pending_finite(v),
    ensures
        in_sync(v.flushed(), apply_writes(disk, v.flush_writes())),
{
    let after = apply_writes(disk, v.flush_writes());
    let w = v.flushed();
    assert forall|k: Seq<u8>|
        #![trigger value_of(w.cfs[0].data, k)]
        #![trigger value_of(w.cfs[1].data, k)]
        #![trigger value_of(w.cfs[2].data, k)]
        {
            let key = keys::spec_data_key(k);
            &&& value_of(after, (ColumnFamilyType::Lock, key)) == value_of(w.cfs[0].data, k)
            &&& value_of(after, (ColumnFamilyType::Write, key)) == value_of(w.cfs[1].data, k)
            &&& value_of(after, (ColumnFamilyType::Default, key)) == value_of(w.cfs[2].data, k)
        } by {
        flush_makes_durable(v, disk, k);
    }
}

pub(crate) proof fn flush_slots(disk: Disk, after: Disk, c: CfView, t: ColumnFamilyType, k: Seq<u8>)
    requires
        c.written.dom().finite(),
        c.deleted.finite(),
        after == apply_writes(disk, cf_writes(c, t)),
    ensures
        forall|u: ColumnFamilyType|
            #![trigger value_of(after, (u, keys::spec_data_key(k)))]
            value_of(after, (u, keys::spec_data_key(k))) == (if u == t && to_put(c).contains(k) {
                Some(c.written[k])
            } else if u == t && to_delete(c).contains(k) {
                None
            } else {
                value_of(disk, (u, keys::spec_data_key(k)))
            }),
{
    assert forall|u: ColumnFamilyType|
        #![trigger value_of(after, (u, keys::spec_data_key(k)))]
        value_of(after, (u, keys::spec_data_key(k))) == (if u == t && to_put(c).contains(k) {
            Some(c.written[k])
        } else if u == t && to_delete(c).contains(k) {
            None
        } else {
            value_of(disk, (u, keys::spec_data_key(k)))
        }) by {
        flush_cf_effect(disk, c, t, u, k);
    }
}

/// A flush leaves nothing to be flushed: a second one writes nothing.
pub proof fn flush_is_enough(v: MockRegionView)
    ensures
        v.flushed().flush_writes() == Seq::<DbWriteView>::empty(),
        v.flushed().flushed() == v.flushed(),
{
    let none = Set::<Seq<u8>>::empty();
    assert forall|i: int| 0 <= i < 3 implies to_put(#[trigger] v.flushed().cfs[i]) == none
        && to_delete(v.flushed().cfs[i]) == none by {
        assert(to_put(v.flushed().cfs[i]) =~= none);
        assert(to_delete(v.flushed().cfs[i]) =~= none);
    }
    assert(bytes_map::lists(Seq::empty(), none));
    bytes_map::rising_is(Seq::empty(), none);
    assert(v.flushed().flush_writes() =~= Seq::empty());
    assert(v.flushed().flushed() =~= v.flushed());
}

} // verus!
