//! Reading the pairs of a sorted file one after the other.

use vstd::prelude::*;

use crate::bytes_map;
use crate::ffi::{BaseBuffView, ColumnFamilyType};

verus! {

/// The pairs come from a sorted file.
pub const KIND_SST: u64 = 0;

/// The pairs come from a tablet.
pub const KIND_TABLET: u64 = 1;

/// What reads a file: locks are kept in a plain file, everything else in a sorted one.
#[derive(Clone, Copy, Debug, PartialEq, Eq, Structural)]
pub enum FileReaderKind {
    LockCfFile,
    SstFile,
}

/// What reads the files of a column family.
pub fn reader_kind(type_: ColumnFamilyType) -> (r: FileReaderKind)
    ensures
        r == (if type_ == ColumnFamilyType::Lock {
            FileReaderKind::LockCfFile
        } else {
            FileReaderKind::SstFile
        }),
{
    match type_ {
        ColumnFamilyType::Lock => FileReaderKind::LockCfFile,
        _ => FileReaderKind::SstFile,
    }
}

/// The pairs of one file, in its order.
pub struct SstData {
    pub type_: ColumnFamilyType,
    pub kvs: Vec<(Vec<u8>, Vec<u8>)>,
}

#[verifier::ext_equal]
pub struct SstDataView {
    pub type_: ColumnFamilyType,
    pub kvs: Seq<(Seq<u8>, Seq<u8>)>,
}

impl View for SstData {
    type V = SstDataView;

    open spec fn view(&self) -> SstDataView {
        SstDataView { type_: self.type_, kvs: bytes_map::pair_views(self.kvs@) }
    }
}

/// The views of a list of files.
pub open spec fn sst_views(v: Seq<SstData>) -> Seq<SstDataView> {
    Seq::new(v.len(), |i: int| v[i]@)
}

/// Reads the pairs of a file.
pub struct SSTReader<'a> {
    inner: &'a SstData,
    pos: usize,
}

impl<'a> SSTReader<'a> {
    /// The pairs that are still to be read.
    pub closed spec fn rest(self) -> Seq<(Seq<u8>, Seq<u8>)> {
        bytes_map::pair_views(self.inner.kvs@).skip(self.pos as int)
    }

    #[verifier::type_invariant]
    spec fn in_file(&self) -> bool {
        self.pos <= self.inner.kvs@.len()
    }

    /// A reader at the first pair of a file.
    pub fn new(view: &'a SstData) -> (r: Self)
        ensures
            r.rest() == view@.kvs,
    {
        let r = SSTReader { inner: view, pos: 0 };
        assert(r.rest() =~= view@.kvs);
        r
    }

    /// Whether a pair is left.
    pub fn remained(&self) -> (r: bool)
        ensures
            r == (self.rest().len() > 0),
    {
        proof {
            use_type_invariant(self);
        }
        self.pos < self.inner.kvs.len()
    }

    /// The key of the pair that the reader is at.
    pub fn key(&self) -> (r: BaseBuffView<'a>)
        requires
            self.rest().len() > 0,
        ensures
            r@ == self.rest()[0].0,
            !r.spec_is_null(),
    {
        proof {
            use_type_invariant(self);
        }
        BaseBuffView::from(self.inner.kvs[self.pos].0.as_slice())
    }

    /// The value of the pair that the reader is at.
    pub fn value(&self) -> (r: BaseBuffView<'a>)
        requires
            self.rest().len() > 0,
        ensures
            r@ == self.rest()[0].1,
            !r.spec_is_null(),
    {
        proof {
            use_type_invariant(self);
        }
        BaseBuffView::from(self.inner.kvs[self.pos].1.as_slice())
    }

    /// Goes on to the next pair.
    pub fn next(&mut self)
        requires
            old(self).rest().len() > 0,
        ensures
            final(self).rest() == old(self).rest().skip(1),
    {
        proof {
            use_type_invariant(&*self);
        }
        let ghost before = self.rest();
        assert(self.pos < self.inner.kvs.len());
        self.pos = self.pos + 1;
        assert(self.rest() =~= before.skip(1));
    }
}

} // verus!
