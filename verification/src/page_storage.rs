//! An in-memory page storage: batches of pages, and the pages that are stored.

use vstd::prelude::*;

use crate::bytes;
use crate::bytes_map;
use crate::bytes_map::BytesMap;
use crate::ffi::BaseBuffView;

verus! {

/// Pages by their identifiers.
pub type Pages = Map<Seq<u8>, Seq<u8>>;

/// One page.
#[derive(Debug)]
pub struct MockPSUniversalPage {
    pub data: Vec<u8>,
}

impl MockPSUniversalPage {
    /// A page with a copy of some bytes.
    pub fn from(view: BaseBuffView) -> (r: Self)
        requires
            !view.spec_is_null(),
        ensures
            r.data@ == view@,
    {
        MockPSUniversalPage { data: bytes::copy_of(view.to_slice()) }
    }
}

/// Pages that are written together.
pub struct MockPSWriteBatch {
    pub data: BytesMap,
}

impl View for MockPSWriteBatch {
    type V = Pages;

    open spec fn view(&self) -> Pages {
        self.data@
    }
}

impl MockPSWriteBatch {
    /// An empty batch.
    pub fn create_write_batch() -> (r: Self)
        ensures
            r@ == Pages::empty(),
    {
        MockPSWriteBatch { data: BytesMap::new() }
    }

    /// Puts a page into the batch.
    pub fn put_page(&mut self, page_id: BaseBuffView, page: BaseBuffView)
        requires
            !page_id.spec_is_null(),
            !page.spec_is_null(),
        ensures
            final(self)@ == old(self)@.insert(page_id@, page@),
    {
        let p = MockPSUniversalPage::from(page);
        self.data.insert(bytes::copy_of(page_id.to_slice()), p.data);
    }

    /// Takes a page out of the batch; a page that is stored already is not touched.
    pub fn del_page(&mut self, page_id: BaseBuffView)
        requires
            !page_id.spec_is_null(),
        ensures
            final(self)@ == old(self)@.remove(page_id@),
    {
        self.data.remove(page_id.to_slice());
    }

    /// How many pages the batch holds.
    pub fn size(&self) -> (r: u64)
        ensures
            r == self@.dom().len(),
            self@.dom().finite(),
    {
        self.data.len() as u64
    }

    /// 1 where the batch holds no page, 0 otherwise.
    pub fn is_empty(&self) -> (r: u8)
        ensures
            r == (if self@ == Pages::empty() {
                1u8
            } else {
                0u8
            }),
    {
        if self.data.is_empty() {
            1
        } else {
            0
        }
    }

    /// Moves the pages of another batch into this one.
    pub fn merge(&mut self, other: &mut MockPSWriteBatch)
        ensures
            final(self)@ == old(self)@.union_prefer_right(old(other)@),
            final(other)@ == Pages::empty(),
    {
        self.data.absorb(&mut other.data);
    }

    /// Takes every page out of the batch.
    pub fn clear(&mut self)
        ensures
            final(self)@ == Pages::empty(),
    {
        self.data.clear();
    }
}

impl Default for MockPSWriteBatch {
    fn default() -> (r: Self)
        ensures
            r@ == Pages::empty(),
    {
        MockPSWriteBatch::create_write_batch()
    }
}

/// The pages that are stored, in the order of their identifiers.
pub struct MockPageStorage {
    pub data: BytesMap,
}

impl View for MockPageStorage {
    type V = Pages;

    open spec fn view(&self) -> Pages {
        self.data@
    }
}

impl MockPageStorage {
    /// A storage without pages.
    pub fn new() -> (r: Self)
        ensures
            r@ == Pages::empty(),
    {
        MockPageStorage { data: BytesMap::new() }
    }

    /// Stores the pages of a batch and leaves the batch empty.
    pub fn consume_write_batch(&mut self, wb: &mut MockPSWriteBatch)
        ensures
            final(self)@ == old(self)@.union_prefer_right(old(wb)@),
            final(wb)@ == Pages::empty(),
    {
        self.data.absorb(&mut wb.data);
    }

    /// Whether a page is stored.
    pub fn has_page(&self, page_id: &[u8]) -> (r: bool)
        ensures
            r == self@.contains_key(page_id@),
    {
        self.data.contains_key(page_id)
    }

    /// A copy of a page that is stored.
    pub fn handle_read_page(&self, page_id: BaseBuffView) -> (r: Vec<u8>)
        requires
            !page_id.spec_is_null(),
            self@.contains_key(page_id@),
        ensures
            r@ == self@[page_id@],
    {
        bytes::copy_of(self.data.get(page_id.to_slice()).unwrap())
    }

    /// The identifiers and pages from `start_page_id` on and before `end_page_id`, in the
    /// order of the identifiers; an empty `end_page_id` sets no bound.
    pub fn handle_scan_page(
        &self,
        start_page_id: BaseBuffView,
        end_page_id: BaseBuffView,
    ) -> (r: Vec<(Vec<u8>, Vec<u8>)>)
        requires
            !start_page_id.spec_is_null(),
            !end_page_id.spec_is_null(),
            end_page_id@.len() == 0 || bytes::lex_le(start_page_id@, end_page_id@),
        ensures
            bytes_map::sorted(bytes_map::pair_views(r@)),
            bytes_map::map_of(bytes_map::pair_views(r@)) == bytes_map::range_of(
                self@,
                start_page_id@,
                end_page_id@,
            ),
    {
        self.data.range(start_page_id.to_slice(), end_page_id.to_slice())
    }

    /// 1 where no page is stored, 0 otherwise.
    pub fn ps_is_empty(&self) -> (r: u8)
        ensures
            r == (if self@ == Pages::empty() {
                1u8
            } else {
                0u8
            }),
    {
        if self.data.is_empty() {
            1
        } else {
            0
        }
    }
}

impl Default for MockPageStorage {
    fn default() -> (r: Self)
        ensures
            r@ == Pages::empty(),
    {
        MockPageStorage::new()
    }
}

} // verus!
