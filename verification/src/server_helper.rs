//! The engine store's functions as the proxy sees them: what goes in, and what is made of the
//! raw values that come back.

use vstd::prelude::*;

use crate::bytes;
use crate::ffi::{BaseBuffView, TiFlashApplyRes};
use crate::messages::Region;

verus! {

/// A pointer that the engine store owns, by its address and the kind of what it points to.
#[derive(Debug)]
pub struct RawCppPtr {
    ptr: usize,
    tp: u32,
}

impl RawCppPtr {
    pub closed spec fn address(self) -> usize {
        self.ptr
    }

    pub closed spec fn kind(self) -> u32 {
        self.tp
    }

    pub fn new(ptr: usize, tp: u32) -> (r: Self)
        ensures
            r.address() == ptr,
            r.kind() == tp,
    {
        RawCppPtr { ptr, tp }
    }

    pub fn raw_address(&self) -> (r: usize)
        ensures
            r == self.address(),
    {
        self.ptr
    }

    pub fn get_type(&self) -> (r: u32)
        ensures
            r == self.kind(),
    {
        self.tp
    }

    /// Gives the pointer away; nothing is left to be released.
    pub fn into_raw(self) -> (r: usize)
        ensures
            r == self.address(),
    {
        self.ptr
    }

    pub fn is_null(&self) -> (r: bool)
        ensures
            r == (self.address() == 0),
    {
        self.ptr == 0
    }

    /// What has to be handed back to the engine store when the pointer is no longer needed. A
    /// pointer is handed back once.
    pub fn release(&mut self) -> (r: Option<RawCppPtr>)
        ensures
            match r {
                Some(p) => old(self).address() != 0 && p == *old(self),
                None => old(self).address() == 0,
            },
            final(self).address() == 0,
            final(self).kind() == old(self).kind(),
    {
        if self.ptr == 0 {
            None
        } else {
            let p = RawCppPtr { ptr: self.ptr, tp: self.tp };
            self.ptr = 0;
            Some(p)
        }
    }
}

/// A pointer on its way between threads.
#[derive(Debug)]
pub struct PtrWrapper(pub RawCppPtr);

/// A string that the engine store owns.
#[derive(Debug)]
pub struct CppStrWithView<'a> {
    pub inner: RawCppPtr,
    pub view: BaseBuffView<'a>,
}

impl<'a> CppStrWithView<'a> {
    pub fn new(inner: RawCppPtr, view: BaseBuffView<'a>) -> (r: Self)
        ensures
            r == (CppStrWithView { inner, view }),
    {
        CppStrWithView { inner, view }
    }

    /// Whether there is no string.
    pub fn is_none(&self) -> (r: bool)
        ensures
            r == (self.inner.address() == 0),
    {
        self.inner.is_null()
    }
}

/// What serializing a snapshot gave.
#[derive(Clone, Copy, Debug, PartialEq, Eq, Structural)]
pub struct SerializeTiFlashSnapshotRes {
    pub ok: u8,
    pub key_count: u64,
    pub total_size: u64,
}

/// The size of a region, roughly.
#[derive(Clone, Copy, Debug, PartialEq, Eq, Structural)]
pub struct GetRegionApproximateSizeKeysRes {
    pub ok: u8,
    pub size: u64,
    pub keys: u64,
}

/// Keys at which a region can be split.
pub struct SplitKeysWithView<'a> {
    inner: RawCppPtr,
    view: Vec<BaseBuffView<'a>>,
}

impl<'a> SplitKeysWithView<'a> {
    pub closed spec fn views(self) -> Seq<BaseBuffView<'a>> {
        self.view@
    }

    #[verifier::type_invariant]
    spec fn none_is_null(&self) -> bool {
        forall|i: int| 0 <= i < self.view@.len() ==> !(#[trigger] self.view@[i]).spec_is_null()
    }

    pub fn new(inner: RawCppPtr, view: Vec<BaseBuffView<'a>>) -> (r: Self)
        requires
            forall|i: int| 0 <= i < view@.len() ==> !(#[trigger] view@[i]).spec_is_null(),
        ensures
            r.views() == view@,
    {
        SplitKeysWithView { inner, view }
    }

    /// Copies of the keys.
    pub fn into(self) -> (r: Vec<Vec<u8>>)
        ensures
            r@.len() == self.views().len(),
            forall|i: int| 0 <= i < r@.len() ==> (#[trigger] r@[i])@ == self.views()[i]@,
    {
        proof {
            use_type_invariant(&self);
        }
        let mut res: Vec<Vec<u8>> = Vec::new();
        let n: usize = self.view.len();
        let mut i: usize = 0;
        while i < n
            invariant
                i <= n,
                n == self.view@.len(),
                self.none_is_null(),
                res@.len() == i,
                forall|j: int| 0 <= j < i ==> (#[trigger] res@[j])@ == self.view@[j]@,
            decreases n - i,
        {
            assert(!self.view@[i as int].spec_is_null());
            res.push(bytes::copy_of(self.view[i].to_slice()));
            i = i + 1;
        }
        res
    }
}

/// What looking for keys at which a region can be split gave.
pub struct ScanSplitKeysRes<'a> {
    pub ok: u8,
    pub size: u64,
    pub keys: u64,
    pub split_keys: SplitKeysWithView<'a>,
}

/// How the engine store is doing.
#[derive(Clone, Copy, Debug, PartialEq, Eq, Structural)]
pub enum TiFlashStatus {
    IDLE,
    Running,
    Stopped,
}

impl TiFlashStatus {
    pub open spec fn code(self) -> u8 {
        match self {
            TiFlashStatus::IDLE => 0,
            TiFlashStatus::Running => 1,
            TiFlashStatus::Stopped => 2,
        }
    }

    /// The status with a number.
    pub fn from(s: u8) -> (r: Self)
        requires
            s <= 2,
        ensures
            r.code() == s,
    {
        match s {
            0 => TiFlashStatus::IDLE,
            1 => TiFlashStatus::Running,
            _ => TiFlashStatus::Stopped,
        }
    }
}

/// When a region is to be split.
#[derive(Clone, Copy, Debug, PartialEq, Eq, Structural)]
pub struct CheckerConfig {
    pub max_size: u64,
    pub split_size: u64,
    pub batch_split_limit: u64,
}

/// What went wrong with the engine store.
#[derive(Clone, Copy, Debug, PartialEq, Eq, Structural)]
pub enum HelperError {
    /// It could not find split keys of a region.
    ScanSplitKeys { region_id: u64 },
    /// It could not tell the size of a region.
    ApproximateSizeKeys { region_id: u64 },
    /// It is another program.
    MagicNumber { expect: u32, got: u32 },
    /// It has another version of the interface.
    Version { expect: u32, got: u32 },
}

/// By this number the engine store is known.
pub const MAGIC_NUMBER: u32 = 0x13579BDF;

/// The version of the interface.
pub const VERSION: u32 = 12;

/// The engine store's functions.
#[derive(Clone, Copy, Debug, PartialEq, Eq, Structural)]
pub struct TiFlashServerHelper {
    pub magic_number: u32,
    pub version: u32,
    /// The address of the engine store.
    pub inner: usize,
}

impl TiFlashServerHelper {
    /// Checks that the functions are those of an engine store with the right interface.
    pub fn check(&self) -> (r: Result<(), HelperError>)
        ensures
            r == (if self.magic_number != MAGIC_NUMBER {
                Err::<(), HelperError>(
                    HelperError::MagicNumber { expect: MAGIC_NUMBER, got: self.magic_number },
                )
            } else if self.version != VERSION {
                Err::<(), HelperError>(
                    HelperError::Version { expect: VERSION, got: self.version },
                )
            } else {
                Ok::<(), HelperError>(())
            }),
    {
        if self.magic_number != MAGIC_NUMBER {
            Err(HelperError::MagicNumber { expect: MAGIC_NUMBER, got: self.magic_number })
        } else if self.version != VERSION {
            Err(HelperError::Version { expect: VERSION, got: self.version })
        } else {
            Ok(())
        }
    }

    /// The size, the number of keys and the split keys of a region, from the raw answer.
    pub fn scan_split_keys(&self, region_id: u64, res: ScanSplitKeysRes) -> (r: Result<
        (u64, u64, Vec<Vec<u8>>),
        HelperError,
    >)
        ensures
            match r {
                Ok((size, keys, split_keys)) => {
                    &&& res.ok != 0
                    &&& size == res.size
                    &&& keys == res.keys
                    &&& split_keys@.len() == res.split_keys.views().len()
                    &&& forall|i: int|
                        0 <= i < split_keys@.len() ==> (#[trigger] split_keys@[i])@
                            == res.split_keys.views()[i]@
                },
                Err(e) => res.ok == 0 && e == (HelperError::ScanSplitKeys { region_id }),
            },
    {
        if res.ok == 0 {
            Err(HelperError::ScanSplitKeys { region_id })
        } else {
            Ok((res.size, res.keys, res.split_keys.into()))
        }
    }

    /// The size and the number of keys of a region, from the raw answer.
    pub fn get_region_approximate_size_keys_of_tiflash(
        &self,
        region: &Region,
        res: GetRegionApproximateSizeKeysRes,
    ) -> (r: Result<(u64, u64), HelperError>)
        ensures
            r == (if res.ok == 0 {
                Err::<(u64, u64), HelperError>(
                    HelperError::ApproximateSizeKeys { region_id: region@.id },
                )
            } else {
                Ok::<(u64, u64), HelperError>((res.size, res.keys))
            }),
    {
        if res.ok == 0 {
            Err(HelperError::ApproximateSizeKeys { region_id: region.id })
        } else {
            Ok((res.size, res.keys))
        }
    }

    /// Whether a file is a snapshot of the engine store, from the raw answer.
    pub fn is_tiflash_snapshot(&self, res: u8) -> (r: bool)
        ensures
            r == (res != 0),
    {
        res != 0
    }

    /// Whether the engine store has ended, from the raw answer.
    pub fn handle_check_terminated(&self, res: u8) -> (r: bool)
        ensures
            r == (res != 0),
    {
        res != 0
    }

    /// How the engine store is doing, from the raw answer.
    pub fn handle_get_tiflash_status(&self, res: u8) -> (r: TiFlashStatus)
        requires
            res <= 2,
        ensures
            r.code() == res,
    {
        TiFlashStatus::from(res)
    }

    /// What the engine store makes of writes, from the raw answer.
    pub fn handle_write_raft_cmd(&self, res: u32) -> (r: TiFlashApplyRes)
        requires
            res <= 2,
        ensures
            r.code() == res,
    {
        TiFlashApplyRes::from(res)
    }

    /// What the engine store makes of an administrative command, from the raw answer.
    pub fn handle_admin_raft_cmd(&self, res: u32) -> (r: TiFlashApplyRes)
        requires
            res <= 2,
        ensures
            r.code() == res,
    {
        TiFlashApplyRes::from(res)
    }

    /// What the engine store makes of sorted files, from the raw answer.
    pub fn handle_ingest_sst(&self, res: u32) -> (r: TiFlashApplyRes)
        requires
            res <= 2,
        ensures
            r.code() == res,
    {
        TiFlashApplyRes::from(res)
    }
}

/// What a pointer of the engine store points to.
#[derive(Clone, Copy, Debug, PartialEq, Eq, Structural)]
pub enum RawCppPtrTypeImpl {
    Null,
    String,
    PreHandledSnapshotWithBlock,
    PreHandledSnapshotWithFiles,
}

impl RawCppPtrTypeImpl {
    pub open spec fn code(self) -> u32 {
        match self {
            RawCppPtrTypeImpl::Null => 0,
            RawCppPtrTypeImpl::String => 1,
            RawCppPtrTypeImpl::PreHandledSnapshotWithBlock => 2,
            RawCppPtrTypeImpl::PreHandledSnapshotWithFiles => 3,
        }
    }

    /// The kind with a number.
    pub fn from(o: u32) -> (r: Self)
        requires
            o <= 3,
        ensures
            r.code() == o,
    {
        match o {
            0 => RawCppPtrTypeImpl::Null,
            1 => RawCppPtrTypeImpl::String,
            2 => RawCppPtrTypeImpl::PreHandledSnapshotWithBlock,
            _ => RawCppPtrTypeImpl::PreHandledSnapshotWithFiles,
        }
    }

    /// The number of a kind.
    pub fn into(self) -> (r: u32)
        ensures
            r == self.code(),
    {
        match self {
            RawCppPtrTypeImpl::Null => 0,
            RawCppPtrTypeImpl::String => 1,
            RawCppPtrTypeImpl::PreHandledSnapshotWithBlock => 2,
            RawCppPtrTypeImpl::PreHandledSnapshotWithFiles => 3,
        }
    }
}

/// No two kinds of pointers, of answers or of states share a number.
pub proof fn codes_differ(
    a: RawCppPtrTypeImpl,
    b: RawCppPtrTypeImpl,
    c: TiFlashApplyRes,
    d: TiFlashApplyRes,
    e: TiFlashStatus,
    f: TiFlashStatus,
)
    ensures
        a.code() == b.code() <==> a == b,
        c.code() == d.code() <==> c == d,
        e.code() == f.code() <==> e == f,
{
}

/// A batch of pages that the engine store owns, by its address and kind.
#[derive(Debug)]
pub struct RawPSWriteBatchWrapper {
    pub ptr: usize,
    pub type_: u32,
}

impl RawPSWriteBatchWrapper {
    /// Takes a pointer over: nothing is left of it that would be handed back.
    pub fn from(src: &mut RawCppPtr) -> (r: Self)
        ensures
            r.ptr == old(src).address(),
            r.type_ == old(src).kind(),
            final(src).address() == 0,
            final(src).kind() == old(src).kind(),
    {
        let r = RawPSWriteBatchWrapper { ptr: src.ptr, type_: src.tp };
        src.ptr = 0;
        r
    }
}

} // verus!
