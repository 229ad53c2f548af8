//! Snapshots of regions on their way to the engine store.

use vstd::prelude::*;

use crate::ffi;
use crate::ffi::{ColumnFamilyType, WriteCmdCf};
use crate::command;
use crate::messages::{Region, RegionView};

verus! {

/// Which snapshot of which region.
#[derive(Clone, Copy, Debug, PartialEq, Eq, Structural)]
pub struct SnapKey {
    pub region_id: u64,
    pub term: u64,
    pub idx: u64,
}

impl SnapKey {
    pub fn new(region_id: u64, term: u64, idx: u64) -> (r: Self)
        ensures
            r == (SnapKey { region_id, term, idx }),
    {
        SnapKey { region_id, term, idx }
    }
}

/// The files of one column family of a snapshot.
#[derive(Debug)]
pub struct CfFile {
    pub cf: String,
    /// The sizes of the files.
    pub size: Vec<u64>,
    /// Where the files lie.
    pub file_paths: Vec<String>,
}

/// The files of a snapshot.
#[derive(Debug)]
pub struct Snapshot {
    pub cf_files: Vec<CfFile>,
}

/// Whether a column family of a snapshot holds anything.
pub open spec fn has_data(f: CfFile) -> bool {
    f.size@.len() > 0 && f.size@[0] != 0
}

/// The files of a column family of a snapshot that are handed to the engine store.
pub open spec fn files_of(f: CfFile) -> Seq<(Seq<char>, ColumnFamilyType)> {
    if has_data(f) {
        Seq::new(
            f.file_paths@.len(),
            |i: int| (f.file_paths@[i]@, WriteCmdCf::of_name(f.cf@)->0),
        )
    } else {
        Seq::empty()
    }
}

/// The files of a snapshot that are handed to the engine store, column family by column
/// family.
pub open spec fn all_files(v: Seq<CfFile>) -> Seq<(Seq<char>, ColumnFamilyType)>
    decreases v.len(),
{
    if v.len() == 0 {
        Seq::empty()
    } else {
        all_files(v.drop_last()) + files_of(v.last())
    }
}

/// A snapshot that can be handed over: a column family that holds something is known and has
/// files.
pub open spec fn snapshot_fits(v: Seq<CfFile>) -> bool {
    forall|i: int|
        0 <= i < v.len() && has_data(#[trigger] v[i]) ==> v[i].file_paths@.len() > 0
            && WriteCmdCf::of_name(v[i].cf@) is Some
}

/// The files of a snapshot, without those of column families that hold nothing.
pub fn retrieve_sst_files(snap: &Snapshot) -> (r: Vec<(String, ColumnFamilyType)>)
    requires
        snapshot_fits(snap.cf_files@),
    ensures
        command::path_views(r@) == all_files(snap.cf_files@),
{
    let mut ssts: Vec<(String, ColumnFamilyType)> = Vec::new();
    let n: usize = snap.cf_files.len();
    let mut i: usize = 0;
    let ghost v = snap.cf_files@;
    assert(v.take(0) =~= Seq::empty());
    assert(command::path_views(ssts@) =~= Seq::empty());
    while i < n
        invariant
            i <= n,
            n == v.len(),
            v == snap.cf_files@,
            snapshot_fits(v),
            command::path_views(ssts@) == all_files(v.take(i as int)),
        decreases n - i,
    {
        let cf_file = &snap.cf_files[i];
        let ghost base = command::path_views(ssts@);
        proof {
            assert(v.take(i + 1).drop_last() =~= v.take(i as int));
            assert(v.take(i + 1).last() == v[i as int]);
        }
        if cf_file.size.len() == 0 || cf_file.size[0] == 0 {
            assert(base + files_of(v[i as int]) =~= base);
            i = i + 1;
            continue;
        }
        assert(has_data(v[i as int]));
        let cf = ffi::name_to_cf(cf_file.cf.as_str());
        let m: usize = cf_file.file_paths.len();
        let mut j: usize = 0;
        let ghost fs = files_of(v[i as int]);
        assert(base + fs.take(0) =~= base);
        while j < m
            invariant
                j <= m,
                m == cf_file.file_paths@.len(),
                fs.len() == m,
                forall|k: int|
                    0 <= k < m ==> #[trigger] fs[k] == (cf_file.file_paths@[k]@, cf),
                command::path_views(ssts@) == base + fs.take(j as int),
            decreases m - j,
        {
            let ghost before = ssts@;
            ssts.push((cf_file.file_paths[j].clone(), cf));
            assert(command::path_views(ssts@) =~= command::path_views(before).push(fs[j as int]));
            assert(base + fs.take(j + 1) =~= (base + fs.take(j as int)).push(fs[j as int]));
            j = j + 1;
        }
        assert(fs.take(m as int) =~= fs);
        i = i + 1;
    }
    assert(v.take(n as int) =~= v);
    ssts
}

/// A snapshot that is being handled in the background: through which channel its result
/// comes, and for which peer it is.
#[derive(Clone, Copy, Debug, PartialEq, Eq, Structural)]
pub struct PrehandleTask {
    pub recv: u64,
    pub peer_id: u64,
}

impl PrehandleTask {
    pub fn new(recv: u64, peer_id: u64) -> (r: Self)
        ensures
            r == (PrehandleTask { recv, peer_id }),
    {
        PrehandleTask { recv, peer_id }
    }
}

type Tasks = Seq<(SnapKey, PrehandleTask)>;

spec fn keys_differ(s: Tasks) -> bool {
    forall|i: int, j: int|
        0 <= i < j < s.len() ==> (#[trigger] s[i]).0 != (#[trigger] s[j]).0
}

spec fn stands_at(s: Tasks, key: SnapKey, i: int) -> bool {
    0 <= i < s.len() && s[i].0 == key
}

spec fn place_of(s: Tasks, key: SnapKey) -> int {
    choose|i: int| stands_at(s, key, i)
}

spec fn task_map(s: Tasks) -> Map<SnapKey, PrehandleTask> {
    Map::new(|k: SnapKey| exists|i: int| stands_at(s, k, i), |k: SnapKey| s[place_of(s, k)].1)
}

proof fn task_map_at(s: Tasks, i: int)
    requires
        keys_differ(s),
        0 <= i < s.len(),
    ensures
        task_map(s).contains_key(s[i].0),
        task_map(s)[s[i].0] == s[i].1,
{
    assert(stands_at(s, s[i].0, i));
    let p = place_of(s, s[i].0);
    assert(stands_at(s, s[i].0, p));
    assert(p == i);
}

proof fn task_map_is(s: Tasks, m: Map<SnapKey, PrehandleTask>)
    requires
        keys_differ(s),
        forall|i: int|
            0 <= i < s.len() ==> m.contains_key((#[trigger] s[i]).0) && m[s[i].0] == s[i].1,
        forall|k: SnapKey| #[trigger] m.contains_key(k) ==> exists|i: int| stands_at(s, k, i),
    ensures
        task_map(s) == m,
{
    let t = task_map(s);
    assert forall|k: SnapKey| t.dom().contains(k) == m.dom().contains(k) by {
        if t.contains_key(k) {
            let i = place_of(s, k);
            assert(stands_at(s, k, i));
            assert(m.contains_key(s[i].0));
        }
        if m.contains_key(k) {
            let i = choose|i: int| stands_at(s, k, i);
            assert(stands_at(s, k, i));
        }
    }
    assert(t.dom() =~= m.dom());
    assert forall|k: SnapKey| t.dom().contains(k) implies t[k] == m[k] by {
        let i = place_of(s, k);
        assert(stands_at(s, k, i));
        assert(m[s[i].0] == s[i].1);
    }
    assert(t =~= m);
}

proof fn task_map_remove(s: Tasks, i: int)
    requires
        keys_differ(s),
        0 <= i < s.len(),
    ensures
        keys_differ(s.remove(i)),
        task_map(s.remove(i)) == task_map(s).remove(s[i].0),
{
    let t = s.remove(i);
    let m = task_map(s).remove(s[i].0);
    assert forall|a: int, b: int| 0 <= a < b < t.len() implies (#[trigger] t[a]).0 != (
    #[trigger] t[b]).0 by {
        let x = if a < i { a } else { a + 1 };
        let y = if b < i { b } else { b + 1 };
        assert(t[a] == s[x] && t[b] == s[y]);
    }
    assert forall|a: int| 0 <= a < t.len() implies m.contains_key((#[trigger] t[a]).0) && m[t[a].0]
        == t[a].1 by {
        let x = if a < i { a } else { a + 1 };
        assert(t[a] == s[x]);
        task_map_at(s, x);
        if x < i {
            assert(s[x].0 != s[i].0);
        } else {
            assert(s[i].0 != s[x].0);
        }
    }
    assert forall|k: SnapKey| #[trigger] m.contains_key(k) implies exists|a: int| stands_at(t, k, a) by {
        let x = place_of(s, k);
        assert(stands_at(s, k, x));
        let a = if x < i { x } else { x - 1 };
        assert(stands_at(t, k, a));
    }
    task_map_is(t, m);
}

proof fn task_map_push(s: Tasks, key: SnapKey, task: PrehandleTask)
    requires
        keys_differ(s),
        !task_map(s).contains_key(key),
    ensures
        keys_differ(s.push((key, task))),
        task_map(s.push((key, task))) == task_map(s).insert(key, task),
{
    let t = s.push((key, task));
    let m = task_map(s).insert(key, task);
    assert forall|i: int| 0 <= i < s.len() implies (#[trigger] s[i]).0 != key by {
        if s[i].0 == key {
            assert(stands_at(s, key, i));
        }
    }
    assert forall|a: int, b: int| 0 <= a < b < t.len() implies (#[trigger] t[a]).0 != (
    #[trigger] t[b]).0 by {
        assert(t[a] == s[a]);
        if b < s.len() {
            assert(t[b] == s[b]);
        }
    }
    assert forall|a: int| 0 <= a < t.len() implies m.contains_key((#[trigger] t[a]).0) && m[t[a].0]
        == t[a].1 by {
        if a < s.len() {
            assert(t[a] == s[a]);
            task_map_at(s, a);
        }
    }
    assert forall|k: SnapKey| #[trigger] m.contains_key(k) implies exists|a: int| stands_at(t, k, a) by {
        if k == key {
            assert(stands_at(t, k, s.len() as int));
        } else {
            let x = place_of(s, k);
            assert(stands_at(s, k, x));
            assert(stands_at(t, k, x));
        }
    }
    task_map_is(t, m);
}

/// The snapshots that are being handled in the background.
pub struct PrehandleContext {
    tracer: Vec<(SnapKey, PrehandleTask)>,
}

impl PrehandleContext {
    #[verifier::type_invariant]
    spec fn one_task_each(&self) -> bool {
        keys_differ(self.tracer@)
    }
}

impl View for PrehandleContext {
    type V = Map<SnapKey, PrehandleTask>;

    closed spec fn view(&self) -> Map<SnapKey, PrehandleTask> {
        task_map(self.tracer@)
    }
}

impl PrehandleContext {
    /// No snapshot is being handled.
    pub fn new() -> (r: Self)
        ensures
            r@ == Map::<SnapKey, PrehandleTask>::empty(),
    {
        let r = PrehandleContext { tracer: Vec::new() };
        assert(r@ =~= Map::empty());
        r
    }

    /// Whether a snapshot is being handled.
    pub fn contains_key(&self, key: SnapKey) -> (r: bool)
        ensures
            r == self@.contains_key(key),
    {
        proof {
            use_type_invariant(self);
        }
        let n: usize = self.tracer.len();
        let mut i: usize = 0;
        while i < n
            invariant
                i <= n,
                n == self.tracer@.len(),
                keys_differ(self.tracer@),
                forall|j: int| 0 <= j < i ==> (#[trigger] self.tracer@[j]).0 != key,
            decreases n - i,
        {
            if self.tracer[i].0 == key {
                proof {
                    task_map_at(self.tracer@, i as int);
                }
                return true;
            }
            i = i + 1;
        }
        proof {
            if task_map(self.tracer@).contains_key(key) {
                assert(stands_at(self.tracer@, key, place_of(self.tracer@, key)));
            }
        }
        false
    }

    /// Takes out the task of a snapshot.
    pub fn remove(&mut self, key: SnapKey) -> (r: Option<PrehandleTask>)
        ensures
            final(self)@ == old(self)@.remove(key),
            match r {
                Some(t) => old(self)@.contains_key(key) && old(self)@[key] == t,
                None => !old(self)@.contains_key(key),
            },
    {
        proof {
            use_type_invariant(&*self);
        }
        let n: usize = self.tracer.len();
        let mut i: usize = 0;
        while i < n
            invariant
                i <= n,
                n == self.tracer@.len(),
                self == old(self),
                keys_differ(self.tracer@),
                forall|j: int| 0 <= j < i ==> (#[trigger] self.tracer@[j]).0 != key,
            decreases n - i,
        {
            if self.tracer[i].0 == key {
                let mut tracer: Vec<(SnapKey, PrehandleTask)> = Vec::new();
                std::mem::swap(&mut tracer, &mut self.tracer);
                proof {
                    task_map_at(tracer@, i as int);
                    task_map_remove(tracer@, i as int);
                }
                let (_, task) = tracer.remove(i);
                self.tracer = tracer;
                return Some(task);
            }
            i = i + 1;
        }
        proof {
            let s = self.tracer@;
            if task_map(s).contains_key(key) {
                let p = place_of(s, key);
                assert(stands_at(s, key, p));
            }
            assert(task_map(s).remove(key) =~= task_map(s));
        }
        None
    }

    /// Notes the task of a snapshot; it takes the place of an earlier one.
    pub fn insert(&mut self, key: SnapKey, task: PrehandleTask)
        ensures
            final(self)@ == old(self)@.insert(key, task),
    {
        let ghost m = self@;
        self.remove(key);
        proof {
            use_type_invariant(&*self);
        }
        let mut tracer: Vec<(SnapKey, PrehandleTask)> = Vec::new();
        std::mem::swap(&mut tracer, &mut self.tracer);
        proof {
            task_map_push(tracer@, key, task);
            assert(m.remove(key).insert(key, task) =~= m.insert(key, task));
        }
        tracer.push((key, task));
        self.tracer = tracer;
    }
}

impl Default for PrehandleContext {
    fn default() -> (r: Self)
        ensures
            r@ == Map::<SnapKey, PrehandleTask>::empty(),
    {
        PrehandleContext::new()
    }
}

/// What is handed to the engine store to build a region from a snapshot.
pub struct PreHandleRequest {
    pub region: Region,
    pub peer_id: u64,
    pub ssts: Vec<(String, ColumnFamilyType)>,
    pub index: u64,
    pub term: u64,
}

#[verifier::ext_equal]
pub struct PreHandleRequestView {
    pub region: RegionView,
    pub peer_id: u64,
    pub ssts: Seq<(Seq<char>, ColumnFamilyType)>,
    pub index: u64,
    pub term: u64,
}

impl View for PreHandleRequest {
    type V = PreHandleRequestView;

    open spec fn view(&self) -> PreHandleRequestView {
        PreHandleRequestView {
            region: self.region@,
            peer_id: self.peer_id,
            ssts: command::path_views(self.ssts@),
            index: self.index,
            term: self.term,
        }
    }
}

/// What is handed to the engine store for a snapshot.
pub open spec fn request_for(
    region: RegionView,
    peer_id: u64,
    key: SnapKey,
    files: Seq<CfFile>,
) -> PreHandleRequestView {
    PreHandleRequestView {
        region,
        peer_id,
        ssts: all_files(files),
        index: key.idx,
        term: key.term,
    }
}

/// What is handed to the engine store to build a region from a snapshot.
pub fn pre_handle_snapshot_impl(
    peer_id: u64,
    ssts: Vec<(String, ColumnFamilyType)>,
    region: &Region,
    snap_key: &SnapKey,
) -> (r: PreHandleRequest)
    ensures
        r@ == (PreHandleRequestView {
            region: region@,
            peer_id,
            ssts: command::path_views(ssts@),
            index: snap_key.idx,
            term: snap_key.term,
        }),
{
    PreHandleRequest {
        region: region.clone(),
        peer_id,
        ssts,
        index: snap_key.idx,
        term: snap_key.term,
    }
}

} // verus!
