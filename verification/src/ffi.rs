//! Values that cross the border to the engine store.

use vstd::prelude::*;

use crate::bytes;

verus! {

/// What the engine store makes of a command: whether its effects must be made durable now.
#[derive(Clone, Copy, Debug, PartialEq, Eq, Structural)]
pub enum TiFlashApplyRes {
    NoPersist,
    Persist,
    NotFound,
}

/// The engine store's answer under the name that the snapshot machinery uses.
pub type EngineStoreApplyRes = TiFlashApplyRes;

impl TiFlashApplyRes {
    /// The number of an answer.
    pub open spec fn code(self) -> u32 {
        match self {
            TiFlashApplyRes::NoPersist => 0,
            TiFlashApplyRes::Persist => 1,
            TiFlashApplyRes::NotFound => 2,
        }
    }

    /// The answer with a number.
    pub fn from(o: u32) -> (r: Self)
        requires
            o <= 2,
        ensures
            r.code() == o,
    {
        match o {
            0 => TiFlashApplyRes::NoPersist,
            1 => TiFlashApplyRes::Persist,
            _ => TiFlashApplyRes::NotFound,
        }
    }
}

/// Whether a write sets or removes a key.
#[derive(Clone, Copy, Debug, PartialEq, Eq, Structural)]
pub enum WriteCmdType {
    Put,
    Del,
}

impl WriteCmdType {
    /// The number of a kind of write.
    pub open spec fn code(self) -> u8 {
        match self {
            WriteCmdType::Put => 0,
            WriteCmdType::Del => 1,
        }
    }

    /// The number of a kind of write.
    pub fn into(self) -> (r: u8)
        ensures
            r == self.code(),
    {
        match self {
            WriteCmdType::Put => 0,
            WriteCmdType::Del => 1,
        }
    }
}

/// The column families that the engine store knows.
#[derive(Clone, Copy, Debug, PartialEq, Eq, Structural)]
pub enum WriteCmdCf {
    Lock,
    Write,
    Default,
}

/// The column families under the name that the engine store uses.
pub type ColumnFamilyType = WriteCmdCf;

impl WriteCmdCf {
    /// The number of a column family.
    pub open spec fn code(self) -> u8 {
        match self {
            WriteCmdCf::Lock => 0,
            WriteCmdCf::Write => 1,
            WriteCmdCf::Default => 2,
        }
    }

    /// The number of a column family.
    pub fn into(self) -> (r: u8)
        ensures
            r == self.code(),
            r < 3,
    {
        match self {
            WriteCmdCf::Lock => 0,
            WriteCmdCf::Write => 1,
            WriteCmdCf::Default => 2,
        }
    }

    /// The column family with a number.
    pub fn from(i: usize) -> (r: Self)
        requires
            i < 3,
        ensures
            r.code() == i,
    {
        if i == 0 {
            WriteCmdCf::Lock
        } else if i == 1 {
            WriteCmdCf::Write
        } else {
            WriteCmdCf::Default
        }
    }

    /// The name of a column family.
    pub open spec fn name(self) -> Seq<char> {
        match self {
            WriteCmdCf::Lock => "lock"@,
            WriteCmdCf::Write => "write"@,
            WriteCmdCf::Default => "default"@,
        }
    }

    /// The column family that a name stands for, if any. An empty name stands for the
    /// default one.
    pub open spec fn of_name(name: Seq<char>) -> Option<WriteCmdCf> {
        if name == "lock"@ {
            Some(WriteCmdCf::Lock)
        } else if name == "write"@ {
            Some(WriteCmdCf::Write)
        } else if name == "default"@ || name.len() == 0 {
            Some(WriteCmdCf::Default)
        } else {
            None
        }
    }
}

/// The column family that a name stands for.
pub fn name_to_cf(cf: &str) -> (r: WriteCmdCf)
    requires
        WriteCmdCf::of_name(cf@) is Some,
    ensures
        Some(r) == WriteCmdCf::of_name(cf@),
{
    if bytes::same_str(cf, "lock") {
        WriteCmdCf::Lock
    } else if bytes::same_str(cf, "write") {
        WriteCmdCf::Write
    } else {
        WriteCmdCf::Default
    }
}

/// The name of a column family.
pub fn cf_to_name(cf: ColumnFamilyType) -> (r: &'static str)
    ensures
        r@ == cf.name(),
{
    match cf {
        WriteCmdCf::Lock => "lock",
        WriteCmdCf::Write => "write",
        WriteCmdCf::Default => "default",
    }
}

/// The name of a column family stands for it.
pub proof fn cf_name_round_trip(cf: WriteCmdCf)
    ensures
        WriteCmdCf::of_name(cf.name()) == Some(cf),
{
    reveal_strlit("lock");
    reveal_strlit("write");
    reveal_strlit("default");
    assert("lock"@.len() == 4);
    assert("write"@.len() == 5);
    assert("default"@.len() == 7);
}

/// Where in a region's log a command stands.
#[derive(Clone, Copy, Debug, PartialEq, Eq, Structural)]
pub struct RaftCmdHeader {
    pub region_id: u64,
    pub index: u64,
    pub term: u64,
}

impl RaftCmdHeader {
    pub fn new(region_id: u64, index: u64, term: u64) -> (r: Self)
        ensures
            r == (RaftCmdHeader { region_id, index, term }),
    {
        RaftCmdHeader { region_id, index, term }
    }
}

/// Bytes that someone else owns; without data it is a null view.
#[derive(Clone, Copy, Debug)]
pub struct BaseBuffView<'a> {
    data: Option<&'a [u8]>,
}

impl<'a> View for BaseBuffView<'a> {
    type V = Seq<u8>;

    closed spec fn view(&self) -> Seq<u8> {
        match self.data {
            Some(d) => d@,
            None => Seq::empty(),
        }
    }
}

impl<'a> BaseBuffView<'a> {
    /// Whether the view has no data.
    pub closed spec fn spec_is_null(self) -> bool {
        self.data is None
    }

    /// A view of some bytes.
    pub fn from(s: &'a [u8]) -> (r: Self)
        ensures
            r@ == s@,
            !r.spec_is_null(),
    {
        BaseBuffView { data: Some(s) }
    }

    /// Whether the view has no data.
    pub fn is_null(&self) -> (r: bool)
        ensures
            r == self.spec_is_null(),
    {
        self.data.is_none()
    }

    /// The number of bytes.
    pub fn len(&self) -> (r: u64)
        ensures
            r == self@.len(),
    {
        match self.data {
            Some(d) => d.len() as u64,
            None => 0,
        }
    }

    /// The bytes.
    pub fn to_slice(&self) -> (r: &'a [u8])
        requires
            !self.spec_is_null(),
        ensures
            r@ == self@,
    {
        self.data.unwrap()
    }
}

impl<'a> Default for BaseBuffView<'a> {
    fn default() -> (r: Self)
        ensures
            r.spec_is_null(),
            r@ == Seq::<u8>::empty(),
    {
        BaseBuffView { data: None }
    }
}

/// One write as a mathematical value.
#[verifier::ext_equal]
pub struct WriteCmdSpec {
    pub key: Seq<u8>,
    pub val: Seq<u8>,
    pub cmd_type: WriteCmdType,
    pub cf: u8,
}

/// The kind of write with a number.
pub open spec fn cmd_type_of(code: u8) -> WriteCmdType {
    if code == 0 {
        WriteCmdType::Put
    } else {
        WriteCmdType::Del
    }
}

/// A list of writes in the layout in which it is handed over: one array per column.
pub struct WriteCmds<'a> {
    keys: Vec<BaseBuffView<'a>>,
    vals: Vec<BaseBuffView<'a>>,
    cmd_type: Vec<u8>,
    cf: Vec<u8>,
}

/// A list of writes as it is handed over.
pub struct WriteCmdsView<'b, 'a> {
    keys: &'b [BaseBuffView<'a>],
    vals: &'b [BaseBuffView<'a>],
    cmd_types: &'b [u8],
    cf: &'b [u8],
    len: u64,
}

/// The columns have one length, their bytes are there, and the kinds of writes are known.
pub open spec fn columns_fit(
    keys: Seq<BaseBuffView>,
    vals: Seq<BaseBuffView>,
    cmd_type: Seq<u8>,
    cf: Seq<u8>,
) -> bool {
    &&& keys.len() == cmd_type.len()
    &&& vals.len() == cmd_type.len()
    &&& cf.len() == cmd_type.len()
    &&& forall|i: int| 0 <= i < cmd_type.len() ==> #[trigger] cmd_type[i] <= 1
    &&& forall|i: int| 0 <= i < keys.len() ==> !(#[trigger] keys[i]).spec_is_null()
    &&& forall|i: int| 0 <= i < vals.len() ==> !(#[trigger] vals[i]).spec_is_null()
}

/// The writes that the columns hold.
pub open spec fn columns_view(
    keys: Seq<BaseBuffView>,
    vals: Seq<BaseBuffView>,
    cmd_type: Seq<u8>,
    cf: Seq<u8>,
) -> Seq<WriteCmdSpec> {
    Seq::new(
        cmd_type.len(),
        |i: int|
            WriteCmdSpec {
                key: keys[i]@,
                val: vals[i]@,
                cmd_type: cmd_type_of(cmd_type[i]),
                cf: cf[i],
            },
    )
}

impl<'a> WriteCmds<'a> {
    #[verifier::type_invariant]
    spec fn columns_are_even(&self) -> bool {
        columns_fit(self.keys@, self.vals@, self.cmd_type@, self.cf@)
    }
}

impl<'a> View for WriteCmds<'a> {
    type V = Seq<WriteCmdSpec>;

    closed spec fn view(&self) -> Seq<WriteCmdSpec> {
        columns_view(self.keys@, self.vals@, self.cmd_type@, self.cf@)
    }
}

impl<'b, 'a> WriteCmdsView<'b, 'a> {
    #[verifier::type_invariant]
    spec fn columns_are_even(&self) -> bool {
        &&& columns_fit(self.keys@, self.vals@, self.cmd_types@, self.cf@)
        &&& self.len == self.cmd_types@.len()
    }
}

impl<'b, 'a> View for WriteCmdsView<'b, 'a> {
    type V = Seq<WriteCmdSpec>;

    closed spec fn view(&self) -> Seq<WriteCmdSpec> {
        columns_view(self.keys@, self.vals@, self.cmd_types@, self.cf@)
    }
}

impl<'a> WriteCmds<'a> {
    /// An empty list with room for some writes.
    pub fn with_capacity(cap: usize) -> (r: WriteCmds<'a>)
        ensures
            r@ == Seq::<WriteCmdSpec>::empty(),
    {
        let r = WriteCmds {
            keys: Vec::with_capacity(cap),
            vals: Vec::with_capacity(cap),
            cmd_type: Vec::with_capacity(cap),
            cf: Vec::with_capacity(cap),
        };
        assert(r@ =~= Seq::empty());
        r
    }

    /// An empty list.
    pub fn new() -> (r: WriteCmds<'a>)
        ensures
            r@ == Seq::<WriteCmdSpec>::empty(),
    {
        WriteCmds::with_capacity(0)
    }

    /// Appends a write.
    pub fn push(&mut self, key: &'a [u8], val: &'a [u8], cmd_type: WriteCmdType, cf: u8)
        ensures
            final(self)@ == old(self)@.push(
                (WriteCmdSpec { key: key@, val: val@, cmd_type, cf }),
            ),
    {
        let ghost before = self@;
        let mut t = WriteCmds::new();
        std::mem::swap(&mut t, self);
        proof {
            use_type_invariant(&t);
        }
        let WriteCmds { keys: mut keys, vals: mut vals, cmd_type: mut types, cf: mut cfs } = t;
        keys.push(BaseBuffView::from(key));
        vals.push(BaseBuffView::from(val));
        types.push(cmd_type.into());
        cfs.push(cf);
        *self = WriteCmds { keys, vals, cmd_type: types, cf: cfs };
        assert(self@ =~= before.push(WriteCmdSpec { key: key@, val: val@, cmd_type, cf }));
    }

    /// How many writes the list holds.
    pub fn len(&self) -> (r: usize)
        ensures
            r == self@.len(),
    {
        self.cmd_type.len()
    }

    /// The list as it is handed over.
    pub fn gen_view<'b>(&'b self) -> (r: WriteCmdsView<'b, 'a>)
        ensures
            r@ == self@,
    {
        proof {
            use_type_invariant(self);
        }
        WriteCmdsView {
            keys: self.keys.as_slice(),
            vals: self.vals.as_slice(),
            cmd_types: self.cmd_type.as_slice(),
            cf: self.cf.as_slice(),
            len: self.cmd_type.len() as u64,
        }
    }
}

impl<'a> Default for WriteCmds<'a> {
    fn default() -> (r: Self)
        ensures
            r@ == Seq::<WriteCmdSpec>::empty(),
    {
        WriteCmds::new()
    }
}

impl<'b, 'a> WriteCmdsView<'b, 'a> {
    /// How many writes there are.
    pub fn len(&self) -> (r: usize)
        ensures
            r == self@.len(),
    {
        self.cmd_types.len()
    }

    /// The key of a write.
    pub fn key(&self, i: usize) -> (r: &'a [u8])
        requires
            i < self@.len(),
        ensures
            r@ == self@[i as int].key,
    {
        proof {
            use_type_invariant(self);
        }
        self.keys[i].to_slice()
    }

    /// The value of a write.
    pub fn val(&self, i: usize) -> (r: &'a [u8])
        requires
            i < self@.len(),
        ensures
            r@ == self@[i as int].val,
    {
        proof {
            use_type_invariant(self);
        }
        self.vals[i].to_slice()
    }

    /// The kind of a write.
    pub fn cmd_type(&self, i: usize) -> (r: WriteCmdType)
        requires
            i < self@.len(),
        ensures
            r == self@[i as int].cmd_type,
    {
        if self.cmd_types[i] == 0 {
            WriteCmdType::Put
        } else {
            WriteCmdType::Del
        }
    }

    /// The number of the column family of a write.
    pub fn cf(&self, i: usize) -> (r: u8)
        requires
            i < self@.len(),
        ensures
            r == self@[i as int].cf,
    {
        proof {
            use_type_invariant(self);
        }
        self.cf[i]
    }
}

/// The sizes of a file system.
#[derive(Clone, Copy, Debug, PartialEq, Eq, Structural)]
pub struct FsStats {
    pub used_size: u64,
    pub avail_size: u64,
    pub capacity_size: u64,
    pub ok: u8,
}

} // verus!
