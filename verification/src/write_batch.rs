//! Write batches that go either to the key-value engine or to the page storage.

use vstd::prelude::*;

verus! {

pub const WRITE_BATCH_MAX_BATCH: usize = 16;

pub const WRITE_BATCH_LIMIT: usize = 16;

pub const WRITE_BATCH_MAX_KEYS: usize = 256;

/// Where a batch goes.
#[derive(Clone, Copy, Debug, PartialEq, Eq, Structural)]
pub enum BatchSide {
    Rocks,
    PageStorage,
}

/// Why an operation on a batch failed.
#[derive(Clone, Copy, Debug, PartialEq, Eq, Structural)]
pub enum WriteBatchError {
    NoSavePoint,
}

/// What has to be done to go back to a save point: the inner batches after one of them are
/// cleared, up to another one, and that one is rolled back.
#[derive(Clone, Copy, Debug, PartialEq, Eq, Structural)]
pub struct Rollback {
    pub batch: usize,
    pub clear_up_to: usize,
}

/// A batch made of inner batches, of which one is written to.
pub struct MixedWriteBatch {
    pub inner: BatchSide,
    /// The inner batch that is written to.
    pub index: usize,
    /// The inner batches that hold the save points, from the first to the last.
    pub save_points: Vec<usize>,
}

#[verifier::ext_equal]
pub struct MixedWriteBatchView {
    pub inner: BatchSide,
    pub index: usize,
    pub save_points: Seq<usize>,
}

impl View for MixedWriteBatch {
    type V = MixedWriteBatchView;

    open spec fn view(&self) -> MixedWriteBatchView {
        MixedWriteBatchView {
            inner: self.inner,
            index: self.index,
            save_points: self.save_points@,
        }
    }
}

impl MixedWriteBatchView {
    pub open spec fn with_save_point(self) -> MixedWriteBatchView {
        MixedWriteBatchView { save_points: self.save_points.push(self.index), ..self }
    }

    pub open spec fn popped(self) -> MixedWriteBatchView {
        MixedWriteBatchView { save_points: self.save_points.drop_last(), ..self }
    }

    pub open spec fn rolled_back(self) -> MixedWriteBatchView {
        MixedWriteBatchView { index: self.save_points.last(), ..self.popped() }
    }
}

impl MixedWriteBatch {
    pub fn new(inner: BatchSide) -> (r: Self)
        ensures
            r@ == (MixedWriteBatchView { inner, index: 0, save_points: Seq::empty() }),
    {
        MixedWriteBatch { inner, index: 0, save_points: Vec::new() }
    }

    /// Whether the batch is written out by itself: it is not.
    pub fn should_write_to_engine(&self) -> (r: bool)
        ensures
            !r,
    {
        false
    }

    /// Sets a save point, and says in which inner batch.
    pub fn set_save_point(&mut self) -> (r: usize)
        ensures
            r == old(self)@.index,
            final(self)@ == old(self)@.with_save_point(),
    {
        self.save_points.push(self.index);
        self.index
    }

    /// Drops the last save point, and says from which inner batch.
    pub fn pop_save_point(&mut self) -> (r: Result<usize, WriteBatchError>)
        ensures
            match r {
                Ok(x) => {
                    &&& old(self)@.save_points.len() > 0
                    &&& x == old(self)@.save_points.last()
                    &&& final(self)@ == old(self)@.popped()
                },
                Err(e) => {
                    &&& e == WriteBatchError::NoSavePoint
                    &&& old(self)@.save_points.len() == 0
                    &&& final(self)@ == old(self)@
                },
            },
    {
        match self.save_points.pop() {
            Some(x) => Ok(x),
            None => Err(WriteBatchError::NoSavePoint),
        }
    }

    /// Goes back to the last save point, and says what has to be done for it.
    pub fn rollback_to_save_point(&mut self) -> (r: Result<Rollback, WriteBatchError>)
        ensures
            match r {
                Ok(x) => {
                    &&& old(self)@.save_points.len() > 0
                    &&& x == (Rollback {
                        batch: old(self)@.save_points.last(),
                        clear_up_to: old(self)@.index,
                    })
                    &&& final(self)@ == old(self)@.rolled_back()
                },
                Err(e) => {
                    &&& e == WriteBatchError::NoSavePoint
                    &&& old(self)@.save_points.len() == 0
                    &&& final(self)@ == old(self)@
                },
            },
    {
        match self.save_points.pop() {
            Some(x) => {
                let r = Rollback { batch: x, clear_up_to: self.index };
                self.index = x;
                Ok(r)
            },
            None => Err(WriteBatchError::NoSavePoint),
        }
    }

    /// Where a put goes, given whether its key belongs into an engine of the proxy.
    pub fn put_cf(&self, do_write: bool) -> (r: Option<BatchSide>)
        ensures
            r == (if do_write {
                Some(self@.inner)
            } else {
                None
            }),
    {
        if do_write {
            Some(self.inner)
        } else {
            None
        }
    }

    /// Where a delete goes, given whether its key belongs into an engine of the proxy.
    pub fn delete_cf(&self, do_write: bool) -> (r: Option<BatchSide>)
        ensures
            r == (if do_write {
                Some(self@.inner)
            } else {
                None
            }),
    {
        if do_write {
            Some(self.inner)
        } else {
            None
        }
    }

    /// Where the writes of another batch go that are added to this one, which must go to the same
    /// place.
    pub fn merge(&self, other: &MixedWriteBatch) -> (r: BatchSide)
        requires
            self@.inner == other@.inner,
        ensures
            r == self@.inner,
            r == other@.inner,
    {
        self.inner
    }

    /// Where the delete of a range goes: nowhere, since the engine store drops whole tables
    /// itself.
    pub fn delete_range_cf(&self) -> (r: Option<BatchSide>)
        ensures
            r is None,
    {
        None
    }
}

/// Going back to a save point undoes what was done since it was set, whatever inner batch was
/// written to meanwhile.
pub proof fn rollback_undoes(b: MixedWriteBatchView, index: usize)
    ensures
        ({
            let later = MixedWriteBatchView { index, ..b.with_save_point() };
            later.rolled_back() == b
        }),
{
    assert(b.save_points.push(b.index).drop_last() =~= b.save_points);
}

} // verus!
