//! A raft log engine on top of a page storage: each log entry and each raft state is a page.

use vstd::prelude::*;

use crate::bytes;
use crate::bytes_map;
use crate::ffi::BaseBuffView;
use crate::keys;
use crate::page_storage::{MockPSWriteBatch, MockPageStorage, Pages};
use crate::raft_entry;
use crate::raft_entry::{Entry, EntryView};

verus! {

/// Why the log engine failed.
#[derive(Clone, Copy, Debug, PartialEq, Eq, Structural)]
pub enum EngineError {
    /// A page does not hold what it should.
    Codec,
    /// An entry is too large to be encoded.
    TooLarge,
}

/// Pages with some entries of a region's log put in, one after the other.
pub open spec fn with_entries(p: Pages, region_id: u64, entries: Seq<EntryView>) -> Pages
    decreases entries.len(),
{
    if entries.len() == 0 {
        p
    } else {
        let e = entries.last();
        with_entries(p, region_id, entries.drop_last()).insert(
            keys::spec_raft_log_key(region_id, e.index),
            raft_entry::entry_bytes(e),
        )
    }
}

/// What is known of an entry that was encoded: decoding gives it back, and with an index it
/// does not take an empty page.
pub open spec fn round_trips(e: EntryView) -> bool {
    &&& raft_entry::entry_of_bytes(raft_entry::entry_bytes(e)) == Some(e)
    &&& e.index != 0 ==> raft_entry::entry_bytes(e).len() > 0
}

/// Pages without the entries of a region's log from one index on and before another.
pub open spec fn without_logs(p: Pages, region_id: u64, from: int, to: int) -> Pages
    decreases to - from,
{
    if from < to {
        without_logs(p, region_id, from, to - 1).remove(
            keys::spec_raft_log_key(region_id, (to - 1) as u64),
        )
    } else {
        p
    }
}

proof fn without_logs_of_nothing(region_id: u64, from: int, to: int)
    ensures
        without_logs(Pages::empty(), region_id, from, to) == Pages::empty(),
    decreases to - from,
{
    if from < to {
        without_logs_of_nothing(region_id, from, to - 1);
        assert(Pages::empty().remove(keys::spec_raft_log_key(region_id, (to - 1) as u64))
            =~= Pages::empty());
    }
}

/// A batch of pages for the page storage.
pub struct PSEngineWriteBatch {
    pub engine_store_server_helper: isize,
    pub raw_write_batch: MockPSWriteBatch,
}

impl View for PSEngineWriteBatch {
    type V = Pages;

    open spec fn view(&self) -> Pages {
        self.raw_write_batch@
    }
}

impl PSEngineWriteBatch {
    /// An empty batch.
    pub fn new(engine_store_server_helper: isize) -> (r: PSEngineWriteBatch)
        ensures
            r@ == Pages::empty(),
            r.engine_store_server_helper == engine_store_server_helper,
    {
        PSEngineWriteBatch {
            engine_store_server_helper,
            raw_write_batch: MockPSWriteBatch::create_write_batch(),
        }
    }

    /// Puts a page into the batch.
    pub fn put_page(&mut self, page_id: &[u8], value: &[u8]) -> (r: Result<(), EngineError>)
        ensures
            r is Ok,
            final(self)@ == old(self)@.insert(page_id@, value@),
            final(self).engine_store_server_helper == old(self).engine_store_server_helper,
    {
        self.raw_write_batch.put_page(BaseBuffView::from(page_id), BaseBuffView::from(value));
        Ok(())
    }

    /// Takes a page out of the batch.
    pub fn del_page(&mut self, page_id: &[u8]) -> (r: Result<(), EngineError>)
        ensures
            r is Ok,
            final(self)@ == old(self)@.remove(page_id@),
            final(self).engine_store_server_helper == old(self).engine_store_server_helper,
    {
        self.raw_write_batch.del_page(BaseBuffView::from(page_id));
        Ok(())
    }

    /// Puts entries of a region's log into the batch.
    pub fn append_impl(&mut self, raft_group_id: u64, entries: &Vec<Entry>) -> (r: Result<
        (),
        EngineError,
    >)
        requires
            forall|i: int|
                0 <= i < entries@.len() ==> raft_entry::can_encode((#[trigger] entries@[i])@),
        ensures
            r is Ok,
            final(self)@ == with_entries(
                old(self)@,
                raft_group_id,
                raft_entry::entry_views(entries@),
            ),
            forall|i: int| 0 <= i < entries@.len() ==> round_trips((#[trigger] entries@[i])@),
            final(self).engine_store_server_helper == old(self).engine_store_server_helper,
    {
        let ghost p = self@;
        let ghost h = self.engine_store_server_helper;
        let ghost v = raft_entry::entry_views(entries@);
        let n: usize = entries.len();
        let mut i: usize = 0;
        assert(v.take(0) =~= Seq::empty());
        while i < n
            invariant
                i <= n,
                n == entries@.len(),
                v == raft_entry::entry_views(entries@),
                forall|j: int|
                    0 <= j < entries@.len() ==> raft_entry::can_encode((#[trigger] entries@[j])@),
                self@ == with_entries(p, raft_group_id, v.take(i as int)),
                forall|j: int| 0 <= j < i ==> round_trips((#[trigger] entries@[j])@),
                self.engine_store_server_helper == h,
            decreases n - i,
        {
            let entry = &entries[i];
            assert(raft_entry::can_encode(entries@[i as int]@));
            let ser_buf = raft_entry::encode_entry(entry);
            let key = keys::raft_log_key(raft_group_id, entry.index);
            proof {
                assert(v.take(i + 1).drop_last() =~= v.take(i as int));
                assert(v.take(i + 1).last() == entry@);
            }
            let _ = self.put_page(&key, &ser_buf);
            i = i + 1;
        }
        assert(v.take(n as int) =~= v);
        Ok(())
    }

    /// Puts an encoded message into the batch.
    pub fn put_msg(&mut self, page_id: &[u8], m: &[u8]) -> (r: Result<(), EngineError>)
        ensures
            r is Ok,
            final(self)@ == old(self)@.insert(page_id@, m@),
            final(self).engine_store_server_helper == old(self).engine_store_server_helper,
    {
        self.put_page(page_id, m)
    }

    /// How many pages the batch holds.
    pub fn data_size(&self) -> (r: usize)
        ensures
            r == self@.dom().len(),
            self@.dom().finite(),
    {
        self.raw_write_batch.data.len()
    }

    /// Takes every page out of the batch.
    pub fn clear(&mut self)
        ensures
            final(self)@ == Pages::empty(),
            final(self).engine_store_server_helper == old(self).engine_store_server_helper,
    {
        self.raw_write_batch.clear();
    }

    /// Puts entries of a region's log into the batch.
    pub fn append(&mut self, raft_group_id: u64, entries: &Vec<Entry>) -> (r: Result<
        (),
        EngineError,
    >)
        requires
            forall|i: int|
                0 <= i < entries@.len() ==> raft_entry::can_encode((#[trigger] entries@[i])@),
        ensures
            r is Ok,
            final(self)@ == with_entries(
                old(self)@,
                raft_group_id,
                raft_entry::entry_views(entries@),
            ),
            forall|i: int| 0 <= i < entries@.len() ==> round_trips((#[trigger] entries@[i])@),
            final(self).engine_store_server_helper == old(self).engine_store_server_helper,
    {
        if entries.len() > 0 {
            return self.append_impl(raft_group_id, entries);
        }
        assert(raft_entry::entry_views(entries@) =~= Seq::empty());
        Ok(())
    }

    /// Takes the entries of a region's log from one index on and before another out of the
    /// batch.
    pub fn cut_logs(&mut self, raft_group_id: u64, from: u64, to: u64)
        ensures
            final(self)@ == without_logs(old(self)@, raft_group_id, from as int, to as int),
            final(self).engine_store_server_helper == old(self).engine_store_server_helper,
    {
        let ghost p = self@;
        let ghost h = self.engine_store_server_helper;
        let mut index: u64 = from;
        while index < to
            invariant
                from <= index,
                index <= to || index == from,
                self@ == without_logs(p, raft_group_id, from as int, index as int),
                self.engine_store_server_helper == h,
            decreases to - index,
        {
            let key = keys::raft_log_key(raft_group_id, index);
            let _ = self.del_page(&key);
            assert((index + 1 - 1) as u64 == index);
            index = index + 1;
        }
    }

    /// Puts the raft state of a region, in its encoded form, into the batch.
    pub fn put_raft_state(&mut self, raft_group_id: u64, state: &[u8]) -> (r: Result<
        (),
        EngineError,
    >)
        ensures
            r is Ok,
            final(self)@ == old(self)@.insert(keys::spec_raft_state_key(raft_group_id), state@),
            final(self).engine_store_server_helper == old(self).engine_store_server_helper,
    {
        let key = keys::raft_state_key(raft_group_id);
        self.put_msg(&key, state)
    }

    /// How many pages the batch holds.
    pub fn persist_size(&self) -> (r: usize)
        ensures
            r == self@.dom().len(),
            self@.dom().finite(),
    {
        self.data_size()
    }

    /// True where the batch holds a page, which is when the underlying batch denies that it is
    /// empty.
    pub fn is_empty(&self) -> (r: bool)
        ensures
            r == (self@ != Pages::empty()),
    {
        self.raw_write_batch.is_empty() == 0
    }

    /// Moves the pages of another batch into this one.
    pub fn merge(&mut self, src: PSEngineWriteBatch) -> (r: Result<(), EngineError>)
        ensures
            r is Ok,
            final(self)@ == old(self)@.union_prefer_right(src@),
            final(self).engine_store_server_helper == old(self).engine_store_server_helper,
    {
        let mut src = src;
        self.raw_write_batch.merge(&mut src.raw_write_batch);
        Ok(())
    }
}

/// What is read of a page: nothing where it is not stored.
pub open spec fn page_of(p: Pages, page_id: Seq<u8>) -> Seq<u8> {
    if p.contains_key(page_id) {
        p[page_id]
    } else {
        Seq::empty()
    }
}

/// The pages of a list of pairs that are not empty.
pub open spec fn filled_pages(p: Seq<(Seq<u8>, Seq<u8>)>) -> Seq<Seq<u8>>
    decreases p.len(),
{
    if p.len() == 0 {
        Seq::empty()
    } else if p.last().1.len() == 0 {
        filled_pages(p.drop_last())
    } else {
        filled_pages(p.drop_last()).push(p.last().1)
    }
}

/// The pages that are not empty from one identifier on and before another, in the order of
/// the identifiers.
pub open spec fn pages_between(p: Pages, start: Seq<u8>, end: Seq<u8>) -> Seq<Seq<u8>> {
    filled_pages(bytes_map::pairs_of(bytes_map::range_of(p, start, end)))
}

/// The pages of a region's log from one index on and before another.
pub open spec fn log_pages(p: Pages, region_id: u64, low: u64, high: u64) -> Seq<Seq<u8>> {
    pages_between(
        p,
        keys::spec_raft_log_key(region_id, low),
        keys::spec_raft_log_key(region_id, high),
    )
}

/// The bytes of some pages together.
pub open spec fn total_len(pages: Seq<Seq<u8>>) -> nat
    decreases pages.len(),
{
    if pages.len() == 0 {
        0
    } else {
        total_len(pages.drop_last()) + pages.last().len()
    }
}

pub(crate) proof fn total_len_grows(pages: Seq<Seq<u8>>, i: int)
    requires
        0 <= i <= pages.len(),
    ensures
        total_len(pages.take(i)) <= total_len(pages),
    decreases pages.len() - i,
{
    if i == pages.len() {
        assert(pages.take(i) =~= pages);
    } else {
        assert(pages.take(i + 1).drop_last() =~= pages.take(i));
        total_len_grows(pages, i + 1);
    }
}

/// A visit of `n` things in their order: the visitor's state before and after each thing that it
/// was shown, and its answers. It is shown things as long as it answers `true`.
pub open spec fn is_visit<S, E>(
    first: S,
    n: nat,
    states: Seq<S>,
    answers: Seq<Result<bool, E>>,
) -> bool {
    &&& states.len() == answers.len() + 1
    &&& states[0] == first
    &&& answers.len() <= n
    &&& forall|i: int| 0 <= i < answers.len() - 1 ==> #[trigger] answers[i] == Ok::<bool, E>(true)
    &&& answers.len() < n ==> answers.len() > 0 && answers.last() != Ok::<bool, E>(true)
}

/// What comes out of a visit: the error that ended it, where one did.
pub open spec fn visit_result<E>(answers: Seq<Result<bool, E>>) -> Result<(), E> {
    if answers.len() > 0 && answers.last() is Err {
        Err(answers.last()->Err_0)
    } else {
        Ok(())
    }
}

/// What a visitor may make of a page; the key that it is shown is empty.
pub open spec fn shown_page<S, E, F: Fn(S, &[u8], &[u8]) -> (S, Result<bool, E>)>(
    f: F,
    page: Seq<u8>,
    before: S,
    after: S,
    answer: Result<bool, E>,
) -> bool {
    exists|k: &[u8], v: &[u8]|
        {
            &&& k@.len() == 0
            &&& v@ == page
            &&& #[trigger] f.ensures((before, k, v), (after, answer))
        }
}

/// A visit of some pages.
pub open spec fn visits_pages<S, E, F: Fn(S, &[u8], &[u8]) -> (S, Result<bool, E>)>(
    f: F,
    pages: Seq<Seq<u8>>,
    first: S,
    states: Seq<S>,
    answers: Seq<Result<bool, E>>,
) -> bool {
    &&& is_visit(first, pages.len(), states, answers)
    &&& forall|i: int|
        0 <= i < answers.len() ==> shown_page(
            f,
            pages[i],
            states[i],
            states[i + 1],
            #[trigger] answers[i],
        )
}

/// What a visitor may make of an entry.
pub open spec fn shown_entry<S, E, F: Fn(S, &Entry) -> (S, Result<bool, E>)>(
    f: F,
    entry: EntryView,
    before: S,
    after: S,
    answer: Result<bool, E>,
) -> bool {
    exists|e: &Entry| e@ == entry && #[trigger] f.ensures((before, e), (after, answer))
}

/// A visit of some entries.
pub open spec fn visits_entries<S, E, F: Fn(S, &Entry) -> (S, Result<bool, E>)>(
    f: F,
    entries: Seq<EntryView>,
    first: S,
    states: Seq<S>,
    answers: Seq<Result<bool, E>>,
) -> bool {
    &&& is_visit(first, entries.len(), states, answers)
    &&& forall|i: int|
        0 <= i < answers.len() ==> shown_entry(
            f,
            entries[i],
            states[i],
            states[i + 1],
            #[trigger] answers[i],
        )
}

/// How many pages there are before the first one that holds no entry.
pub open spec fn entries_before(pages: Seq<Seq<u8>>, n: int) -> bool {
    &&& 0 <= n <= pages.len()
    &&& forall|i: int| 0 <= i < n ==> is_entry(#[trigger] pages[i])
    &&& n < pages.len() ==> !is_entry(pages[n])
}

/// Whether a page holds an entry.
pub open spec fn is_entry(page: Seq<u8>) -> bool {
    raft_entry::entry_of_bytes(page) is Some
}

/// The entries in some pages.
pub open spec fn entries_in(pages: Seq<Seq<u8>>) -> Seq<EntryView> {
    Seq::new(pages.len(), |i: int| raft_entry::entry_of_bytes(pages[i])->0)
}

/// Reading pages stops after `n` of them: all of these hold entries, those before the last
/// stay under the size, and either the size is reached or there are no more pages.
pub open spec fn reads_up_to(pages: Seq<Seq<u8>>, max_size: nat, n: int) -> bool {
    &&& 0 <= n <= pages.len()
    &&& forall|i: int| 0 <= i < n ==> is_entry(#[trigger] pages[i])
    &&& forall|i: int| 0 < i < n ==> total_len(#[trigger] pages.take(i)) < max_size
    &&& n < pages.len() ==> n > 0 && total_len(pages.take(n)) >= max_size
}

/// Reading pages fails at page `n`, which holds no entry: those before it do and stay under
/// the size.
pub open spec fn fails_at(pages: Seq<Seq<u8>>, max_size: nat, n: int) -> bool {
    &&& 0 <= n < pages.len()
    &&& !is_entry(pages[n])
    &&& forall|i: int| 0 <= i < n ==> is_entry(#[trigger] pages[i])
    &&& forall|i: int| 0 < i <= n ==> total_len(#[trigger] pages.take(i)) < max_size
}

/// The size that a limit stands for; no limit stands for the largest one.
pub open spec fn limit_of(max_size: Option<usize>) -> nat {
    match max_size {
        Some(m) => m as nat,
        None => usize::MAX as nat,
    }
}

/// A task to drop entries of a region's log.
#[derive(Clone, Copy, Debug, PartialEq, Eq, Structural)]
pub struct RaftLogGCTask {
    pub raft_group_id: u64,
    pub from: u64,
    pub to: u64,
}

/// How many indexes some tasks cover.
pub open spec fn gc_total(groups: Seq<RaftLogGCTask>) -> int
    decreases groups.len(),
{
    if groups.len() == 0 {
        0
    } else {
        gc_total(groups.drop_last()) + (groups.last().to - groups.last().from)
    }
}

proof fn gc_total_grows(groups: Seq<RaftLogGCTask>, i: int)
    requires
        0 <= i <= groups.len(),
        forall|j: int| 0 <= j < groups.len() ==> (#[trigger] groups[j]).from <= groups[j].to,
    ensures
        0 <= gc_total(groups.take(i)) <= gc_total(groups),
    decreases groups.len() - i,
{
    gc_total_positive(groups, i);
    if i == groups.len() {
        assert(groups.take(i) =~= groups);
    } else {
        assert(groups.take(i + 1).drop_last() =~= groups.take(i));
        assert(groups.take(i + 1).last() == groups[i]);
        gc_total_grows(groups, i + 1);
    }
}

proof fn gc_total_positive(groups: Seq<RaftLogGCTask>, i: int)
    requires
        0 <= i <= groups.len(),
        forall|j: int| 0 <= j < groups.len() ==> (#[trigger] groups[j]).from <= groups[j].to,
    ensures
        0 <= gc_total(groups.take(i)),
    decreases i,
{
    if i > 0 {
        assert(groups.take(i).drop_last() =~= groups.take(i - 1));
        assert(groups.take(i).last() == groups[i - 1]);
        gc_total_positive(groups, i - 1);
    }
}

/// A raft log engine on top of a page storage.
#[derive(Clone, Copy, Debug, PartialEq, Eq, Structural)]
pub struct PSEngine {
    pub engine_store_server_helper: isize,
}

impl PSEngine {
    /// An engine that does not know its engine store yet.
    pub fn new() -> (r: Self)
        ensures
            r.engine_store_server_helper == 0,
    {
        PSEngine { engine_store_server_helper: 0 }
    }

    /// Notes where the engine store's functions are.
    pub fn init(&mut self, engine_store_server_helper: isize)
        ensures
            final(self).engine_store_server_helper == engine_store_server_helper,
    {
        self.engine_store_server_helper = engine_store_server_helper;
    }

    /// A page; one that is not stored, or is empty, counts as none.
    pub fn get_value(&self, ps: &MockPageStorage, page_id: &[u8]) -> (r: Option<Vec<u8>>)
        ensures
            match r {
                Some(v) => v@ == page_of(ps@, page_id@) && v@.len() > 0,
                None => page_of(ps@, page_id@).len() == 0,
            },
    {
        if !ps.has_page(page_id) {
            return None;
        }
        let value = ps.handle_read_page(BaseBuffView::from(page_id));
        if value.len() == 0 {
            None
        } else {
            Some(value)
        }
    }

    /// The pages from `start_key` on and before `end_key` that are not empty, in the order of
    /// their identifiers; an empty `end_key` sets no bound.
    fn read_range(ps: &MockPageStorage, start_key: &[u8], end_key: &[u8]) -> (r: Vec<Vec<u8>>)
        requires
            end_key@.len() == 0 || bytes::lex_le(start_key@, end_key@),
        ensures
            bytes::views(r@) == pages_between(ps@, start_key@, end_key@),
            forall|i: int| 0 <= i < r@.len() ==> (#[trigger] r@[i])@.len() > 0,
    {
        let values = ps.handle_scan_page(BaseBuffView::from(start_key), BaseBuffView::from(end_key));
        let ghost p = bytes_map::pair_views(values@);
        proof {
            bytes_map::pairs_of_is(p);
        }
        let mut r: Vec<Vec<u8>> = Vec::new();
        let n: usize = values.len();
        let mut i: usize = 0;
        assert(p.take(0) =~= Seq::empty());
        assert(bytes::views(r@) =~= Seq::empty());
        while i < n
            invariant
                i <= n,
                n == values@.len(),
                p == bytes_map::pair_views(values@),
                bytes::views(r@) == filled_pages(p.take(i as int)),
                forall|j: int| 0 <= j < r@.len() ==> (#[trigger] r@[j])@.len() > 0,
            decreases n - i,
        {
            proof {
                assert(p.take(i + 1).drop_last() =~= p.take(i as int));
                assert(p.take(i + 1).last() == p[i as int]);
            }
            let page = &values[i].1;
            if page.len() != 0 {
                let ghost before = r@;
                r.push(bytes::copy_of(page));
                assert(bytes::views(r@) =~= bytes::views(before).push(page@));
            }
            i = i + 1;
        }
        assert(p.take(n as int) =~= p);
        r
    }

    /// Shows a visitor the pages from `start_key` on and before `end_key` that are not empty, in
    /// the order of their identifiers, until it answers `false` or an error; an empty `end_key`
    /// sets no bound. The visitor gets the state that it left at the page before. Gives the last
    /// state and the error, where there was one.
    pub fn scan<S, E, F: Fn(S, &[u8], &[u8]) -> (S, Result<bool, E>)>(
        &self,
        ps: &MockPageStorage,
        start_key: &[u8],
        end_key: &[u8],
        state: S,
        f: F,
    ) -> (r: (S, Result<(), E>))
        requires
            end_key@.len() == 0 || bytes::lex_le(start_key@, end_key@),
            forall|s: S, k: &[u8], v: &[u8]|
                k@.len() == 0 && v@.len() > 0 ==> #[trigger] f.requires((s, k, v)),
        ensures
            exists|states: Seq<S>, answers: Seq<Result<bool, E>>|
                {
                    &&& #[trigger] visits_pages(
                        f,
                        pages_between(ps@, start_key@, end_key@),
                        state,
                        states,
                        answers,
                    )
                    &&& r.0 == states.last()
                    &&& r.1 == visit_result(answers)
                },
    {
        let pages = PSEngine::read_range(ps, start_key, end_key);
        let ghost p = pages_between(ps@, start_key@, end_key@);
        let ghost mut states: Seq<S> = seq![state];
        let ghost mut answers: Seq<Result<bool, E>> = Seq::empty();
        let no_key: Vec<u8> = Vec::new();
        let mut now = state;
        let n: usize = pages.len();
        let mut i: usize = 0;
        while i < n
            invariant
                i <= n,
                n == pages@.len(),
                p == bytes::views(pages@),
                p == pages_between(ps@, start_key@, end_key@),
                no_key@.len() == 0,
                forall|j: int| 0 <= j < pages@.len() ==> (#[trigger] pages@[j])@.len() > 0,
                forall|s: S, k: &[u8], v: &[u8]|
                    k@.len() == 0 && v@.len() > 0 ==> #[trigger] f.requires((s, k, v)),
                answers.len() == i,
                states.len() == i + 1,
                states[0] == state,
                states.last() == now,
                forall|j: int| 0 <= j < i ==> #[trigger] answers[j] == Ok::<bool, E>(true),
                forall|j: int|
                    0 <= j < i ==> shown_page(
                        f,
                        p[j],
                        states[j],
                        states[j + 1],
                        #[trigger] answers[j],
                    ),
            decreases n - i,
        {
            let ghost before = now;
            assert(p[i as int] == pages@[i as int]@);
            let (next, answer) = f(now, no_key.as_slice(), pages[i].as_slice());
            proof {
                let older = (states, answers);
                states = states.push(next);
                answers = answers.push(answer);
                assert(shown_page(f, p[i as int], before, next, answer));
                assert forall|j: int| 0 <= j < i + 1 implies shown_page(
                    f,
                    p[j],
                    states[j],
                    states[j + 1],
                    #[trigger] answers[j],
                ) by {
                    if j < i {
                        assert(answers[j] == older.1[j]);
                    }
                }
            }
            now = next;
            match answer {
                Err(e) => {
                    assert(visits_pages(f, p, state, states, answers));
                    return (now, Err(e));
                },
                Ok(go_on) => {
                    if !go_on {
                        assert(visits_pages(f, p, state, states, answers));
                        return (now, Ok(()));
                    }
                },
            }
            i = i + 1;
        }
        assert(visits_pages(f, p, state, states, answers));
        (now, Ok(()))
    }

    /// The raft state of a region, in its encoded form.
    pub fn get_raft_state(&self, ps: &MockPageStorage, raft_group_id: u64) -> (r: Option<Vec<u8>>)
        ensures
            ({
                let page = page_of(ps@, keys::spec_raft_state_key(raft_group_id));
                match r {
                    Some(v) => v@ == page && page.len() > 0,
                    None => page.len() == 0,
                }
            }),
    {
        let key = keys::raft_state_key(raft_group_id);
        self.get_value(ps, &key)
    }

    /// An entry of a region's log; a page that is not stored, or is empty, counts as none.
    pub fn get_entry(&self, ps: &MockPageStorage, raft_group_id: u64, index: u64) -> (r: Result<
        Option<Entry>,
        EngineError,
    >)
        ensures
            ({
                let page = page_of(ps@, keys::spec_raft_log_key(raft_group_id, index));
                match r {
                    Ok(None) => page.len() == 0,
                    Ok(Some(e)) => page.len() > 0 && raft_entry::entry_of_bytes(page) == Some(e@),
                    Err(e) => page.len() > 0 && !is_entry(page) && e == EngineError::Codec,
                }
            }),
    {
        let key = keys::raft_log_key(raft_group_id, index);
        match self.get_value(ps, &key) {
            None => Ok(None),
            Some(value) => match raft_entry::decode_entry(&value) {
                Ok(e) => Ok(Some(e)),
                Err(_) => Err(EngineError::Codec),
            },
        }
    }

    /// Appends the entries of some pages to a list until a size is reached. Gives how many
    /// there were, or nothing where a page holds no entry.
    fn read_entries(pages: &Vec<Vec<u8>>, max_size: usize, buf: &mut Vec<Entry>) -> (r: Option<
        usize,
    >)
        requires
            total_len(bytes::views(pages@)) < usize::MAX,
            forall|i: int| 0 <= i < pages@.len() ==> (#[trigger] pages@[i])@.len() > 0,
        ensures
            ({
                let p = bytes::views(pages@);
                let b = raft_entry::entry_views(old(buf)@);
                let after = raft_entry::entry_views(final(buf)@);
                match r {
                    Some(n) => {
                        &&& reads_up_to(p, max_size as nat, n as int)
                        &&& n <= total_len(p)
                        &&& after == b + entries_in(p.take(n as int))
                    },
                    None => exists|n: int|
                        {
                            &&& #[trigger] fails_at(p, max_size as nat, n)
                            &&& after == b + entries_in(p.take(n))
                        },
                }
            }),
    {
        let ghost p = bytes::views(pages@);
        let ghost b = raft_entry::entry_views(buf@);
        let len: usize = pages.len();
        let mut total_size: usize = 0;
        let mut i: usize = 0;
        assert(p.take(0) =~= Seq::empty());
        assert(b + entries_in(p.take(0)) =~= b);
        while i < len
            invariant
                i <= len,
                len == p.len(),
                p == bytes::views(pages@),
                b == raft_entry::entry_views(old(buf)@),
                i <= total_size,
                total_size == total_len(p.take(i as int)),
                total_len(p) < usize::MAX,
                forall|j: int| 0 <= j < pages@.len() ==> (#[trigger] pages@[j])@.len() > 0,
                forall|j: int| 0 <= j < i ==> is_entry(#[trigger] p[j]),
                forall|j: int| 0 < j <= i ==> total_len(#[trigger] p.take(j)) < max_size,
                raft_entry::entry_views(buf@) == b + entries_in(p.take(i as int)),
            decreases len - i,
        {
            let page = &pages[i];
            assert(p[i as int] == page@);
            match raft_entry::decode_entry(page) {
                Ok(e) => {
                    let ghost before = buf@;
                    let ghost ev = e@;
                    buf.push(e);
                    proof {
                        assert(p.take(i + 1).drop_last() =~= p.take(i as int));
                        assert(p.take(i + 1).last() == page@);
                        total_len_grows(p, i + 1);
                        assert(raft_entry::entry_views(buf@) =~= raft_entry::entry_views(
                            before,
                        ).push(ev));
                        assert(entries_in(p.take(i + 1)) =~= entries_in(p.take(i as int)).push(ev));
                        assert(b + entries_in(p.take(i + 1)) =~= (b + entries_in(
                            p.take(i as int),
                        )).push(ev));
                        assert(pages@[i as int]@.len() > 0);
                    }
                    total_size = total_size + page.len();
                    i = i + 1;
                    if total_size >= max_size {
                        proof {
                            total_len_grows(p, i as int);
                            assert(reads_up_to(p, max_size as nat, i as int));
                        }
                        return Some(i);
                    }
                },
                Err(_) => {
                    assert(fails_at(p, max_size as nat, i as int));
                    return None;
                },
            }
        }
        proof {
            assert(p.take(len as int) =~= p);
            assert(reads_up_to(p, max_size as nat, len as int));
        }
        Some(len)
    }

    /// Appends entries of a region's log from one index on and before another to a list, until
    /// their size reaches a limit. Gives one more than the number of entries.
    pub fn fetch_entries_to(
        &self,
        ps: &MockPageStorage,
        region_id: u64,
        low: u64,
        high: u64,
        max_size: Option<usize>,
        buf: &mut Vec<Entry>,
    ) -> (r: Result<usize, EngineError>)
        requires
            low <= high,
            total_len(log_pages(ps@, region_id, low, high)) < usize::MAX,
        ensures
            ({
                let p = log_pages(ps@, region_id, low, high);
                let max = limit_of(max_size);
                let b = raft_entry::entry_views(old(buf)@);
                let after = raft_entry::entry_views(final(buf)@);
                match r {
                    Ok(count) => {
                        &&& reads_up_to(p, max, count - 1)
                        &&& after == b + entries_in(p.take(count - 1))
                    },
                    Err(e) => {
                        &&& e == EngineError::Codec
                        &&& exists|n: int|
                            {
                                &&& #[trigger] fails_at(p, max, n)
                                &&& after == b + entries_in(p.take(n))
                            }
                    },
                }
            }),
    {
        let limit: usize = match max_size {
            Some(m) => m,
            None => usize::MAX,
        };
        let start_key = keys::raft_log_key(region_id, low);
        let end_key = keys::raft_log_key(region_id, high);
        proof {
            keys::raft_log_keys_rise(region_id, low, high);
        }
        let pages = PSEngine::read_range(ps, &start_key, &end_key);
        assert(bytes::views(pages@) == log_pages(ps@, region_id, low, high));
        assert(limit as nat == limit_of(max_size));
        match PSEngine::read_entries(&pages, limit, buf) {
            Some(n) => {
                let count: usize = n + 1;
                assert(count - 1 == n as int);
                Ok(count)
            },
            None => Err(EngineError::Codec),
        }
    }

    /// Appends all entries of a region's log to a list.
    pub fn get_all_entries_to(&self, ps: &MockPageStorage, region_id: u64, buf: &mut Vec<Entry>) -> (r:
        Result<(), EngineError>)
        ensures
            ({
                let p = log_pages(ps@, region_id, 0, u64::MAX);
                let b = raft_entry::entry_views(old(buf)@);
                let after = raft_entry::entry_views(final(buf)@);
                match r {
                    Ok(_) => {
                        &&& forall|i: int| 0 <= i < p.len() ==> is_entry(#[trigger] p[i])
                        &&& after == b + entries_in(p)
                    },
                    Err(e) => {
                        &&& e == EngineError::Codec
                        &&& exists|n: int|
                            {
                                &&& #[trigger] first_other(p, n)
                                &&& after == b + entries_in(p.take(n))
                            }
                    },
                }
            }),
    {
        let start_key = keys::raft_log_key(region_id, 0);
        let end_key = keys::raft_log_key(region_id, u64::MAX);
        proof {
            keys::raft_log_keys_rise(region_id, 0, u64::MAX);
        }
        let pages = PSEngine::read_range(ps, &start_key, &end_key);
        let ghost p = bytes::views(pages@);
        let ghost b = raft_entry::entry_views(buf@);
        let len: usize = pages.len();
        let mut i: usize = 0;
        assert(b + entries_in(p.take(0)) =~= b);
        while i < len
            invariant
                i <= len,
                len == p.len(),
                p == bytes::views(pages@),
                p == log_pages(ps@, region_id, 0, u64::MAX),
                b == raft_entry::entry_views(old(buf)@),
                forall|j: int| 0 <= j < i ==> is_entry(#[trigger] p[j]),
                raft_entry::entry_views(buf@) == b + entries_in(p.take(i as int)),
            decreases len - i,
        {
            let page = &pages[i];
            assert(p[i as int] == page@);
            match raft_entry::decode_entry(page) {
                Ok(e) => {
                    let ghost before = buf@;
                    let ghost ev = e@;
                    buf.push(e);
                    proof {
                        assert(raft_entry::entry_views(buf@) =~= raft_entry::entry_views(
                            before,
                        ).push(ev));
                        assert(entries_in(p.take(i + 1)) =~= entries_in(p.take(i as int)).push(ev));
                        assert(b + entries_in(p.take(i + 1)) =~= (b + entries_in(
                            p.take(i as int),
                        )).push(ev));
                    }
                },
                Err(_) => {
                    assert(first_other(p, i as int));
                    return Err(EngineError::Codec);
                },
            }
            i = i + 1;
        }
        assert(p.take(len as int) =~= p);
        Ok(())
    }

    /// Shows a visitor the entries of a region's log in their order, until it answers `false` or
    /// an error, or a page holds no entry. The visitor gets the state that it left at the entry
    /// before. Gives the last state; no error comes out.
    pub fn scan_entries<S, E, F: Fn(S, &Entry) -> (S, Result<bool, E>)>(
        &self,
        ps: &MockPageStorage,
        raft_group_id: u64,
        state: S,
        f: F,
    ) -> (r: (S, Result<(), EngineError>))
        requires
            forall|s: S, e: &Entry| #[trigger] f.requires((s, e)),
        ensures
            r.1 == Ok::<(), EngineError>(()),
            ({
                let p = log_pages(ps@, raft_group_id, 0, u64::MAX);
                exists|n: int, states: Seq<S>, answers: Seq<Result<bool, E>>|
                    {
                        &&& entries_before(p, n)
                        &&& #[trigger] visits_entries(
                            f,
                            entries_in(p.take(n)),
                            state,
                            states,
                            answers,
                        )
                        &&& r.0 == states.last()
                    }
            }),
    {
        let mut entries: Vec<Entry> = Vec::new();
        let res = self.get_all_entries_to(ps, raft_group_id, &mut entries);
        let ghost p = log_pages(ps@, raft_group_id, 0, u64::MAX);
        let ghost es = raft_entry::entry_views(entries@);
        let ghost m = es.len() as int;
        proof {
            let none = raft_entry::entry_views(Seq::<Entry>::empty());
            assert(none =~= Seq::empty());
            if res is Ok {
                assert(p.take(p.len() as int) =~= p);
                assert(es =~= entries_in(p));
            } else {
                let k = choose|k: int|
                    #[trigger] first_other(p, k) && es == none + entries_in(p.take(k));
                assert(es =~= entries_in(p.take(k)));
            }
            assert(entries_before(p, m));
            assert(es =~= entries_in(p.take(m)));
        }
        let ghost mut states: Seq<S> = seq![state];
        let ghost mut answers: Seq<Result<bool, E>> = Seq::empty();
        let mut now = state;
        let n: usize = entries.len();
        let mut i: usize = 0;
        while i < n
            invariant
                i <= n,
                n == entries@.len(),
                m == n,
                p == log_pages(ps@, raft_group_id, 0, u64::MAX),
                entries_before(p, m),
                es == raft_entry::entry_views(entries@),
                es == entries_in(p.take(m)),
                forall|s: S, e: &Entry| #[trigger] f.requires((s, e)),
                answers.len() == i,
                states.len() == i + 1,
                states[0] == state,
                states.last() == now,
                forall|j: int| 0 <= j < i ==> #[trigger] answers[j] == Ok::<bool, E>(true),
                forall|j: int|
                    0 <= j < i ==> shown_entry(
                        f,
                        es[j],
                        states[j],
                        states[j + 1],
                        #[trigger] answers[j],
                    ),
            decreases n - i,
        {
            let ghost before = now;
            assert(es[i as int] == entries@[i as int]@);
            let (next, answer) = f(now, &entries[i]);
            proof {
                let older = (states, answers);
                states = states.push(next);
                answers = answers.push(answer);
                assert(shown_entry(f, es[i as int], before, next, answer));
                assert forall|j: int| 0 <= j < i + 1 implies shown_entry(
                    f,
                    es[j],
                    states[j],
                    states[j + 1],
                    #[trigger] answers[j],
                ) by {
                    if j < i {
                        assert(answers[j] == older.1[j]);
                    }
                }
            }
            now = next;
            let go_on = match answer {
                Ok(b) => b,
                Err(_) => false,
            };
            if !go_on {
                assert(visits_entries(f, es, state, states, answers));
                return (now, Ok(()));
            }
            i = i + 1;
        }
        assert(visits_entries(f, es, state, states, answers));
        (now, Ok(()))
    }

    /// An empty batch for this engine.
    pub fn log_batch(&self) -> (r: PSEngineWriteBatch)
        ensures
            r@ == Pages::empty(),
            r.engine_store_server_helper == self.engine_store_server_helper,
    {
        PSEngineWriteBatch::new(self.engine_store_server_helper)
    }

    /// Stores the pages of a batch, leaves the batch empty, and says how many there were.
    pub fn consume(&self, ps: &mut MockPageStorage, batch: &mut PSEngineWriteBatch) -> (r: Result<
        usize,
        EngineError,
    >)
        ensures
            r == Ok::<usize, EngineError>(old(batch)@.dom().len() as usize),
            old(batch)@.dom().len() <= usize::MAX,
            final(ps)@ == old(ps)@.union_prefer_right(old(batch)@),
            final(batch)@ == Pages::empty(),
            final(batch).engine_store_server_helper == old(batch).engine_store_server_helper,
    {
        let bytes: usize = batch.data_size();
        ps.consume_write_batch(&mut batch.raw_write_batch);
        batch.clear();
        Ok(bytes)
    }

    /// Stores the pages of a batch; there is nothing to shrink.
    pub fn consume_and_shrink(
        &self,
        ps: &mut MockPageStorage,
        batch: &mut PSEngineWriteBatch,
    ) -> (r: Result<usize, EngineError>)
        ensures
            r == Ok::<usize, EngineError>(old(batch)@.dom().len() as usize),
            old(batch)@.dom().len() <= usize::MAX,
            final(ps)@ == old(ps)@.union_prefer_right(old(batch)@),
            final(batch)@ == Pages::empty(),
            final(batch).engine_store_server_helper == old(batch).engine_store_server_helper,
    {
        self.consume(ps, batch)
    }

    /// Takes a region's raft state, and its log from an index up to the last one, out of a
    /// batch, and stores what is left of the batch.
    pub fn clean(
        &self,
        ps: &mut MockPageStorage,
        raft_group_id: u64,
        first_index: u64,
        last_index: u64,
        batch: &mut PSEngineWriteBatch,
    ) -> (r: Result<(), EngineError>)
        ensures
            r is Ok,
            final(ps)@ == old(ps)@.union_prefer_right(
                without_logs(
                    old(batch)@.remove(keys::spec_raft_state_key(raft_group_id)),
                    raft_group_id,
                    first_index as int,
                    last_index + 1,
                ),
            ),
            final(batch)@ == Pages::empty(),
    {
        let state_key = keys::raft_state_key(raft_group_id);
        let _ = batch.del_page(&state_key);
        if first_index <= last_index {
            let ghost p = batch@;
            batch.cut_logs(raft_group_id, first_index, last_index);
            let key = keys::raft_log_key(raft_group_id, last_index);
            let _ = batch.del_page(&key);
            assert((last_index + 1 - 1) as u64 == last_index);
        }
        let _ = self.consume(ps, batch);
        Ok(())
    }

    /// Stores entries of a region's log, and says how many pages that took.
    pub fn append(&self, ps: &mut MockPageStorage, raft_group_id: u64, entries: &Vec<Entry>) -> (r:
        Result<usize, EngineError>)
        requires
            forall|i: int|
                0 <= i < entries@.len() ==> raft_entry::can_encode((#[trigger] entries@[i])@),
        ensures
            ({
                let pages = with_entries(
                    Pages::empty(),
                    raft_group_id,
                    raft_entry::entry_views(entries@),
                );
                &&& r == Ok::<usize, EngineError>(pages.dom().len() as usize)
                &&& pages.dom().len() <= usize::MAX
                &&& final(ps)@ == old(ps)@.union_prefer_right(pages)
            }),
            forall|i: int| 0 <= i < entries@.len() ==> round_trips((#[trigger] entries@[i])@),
    {
        let mut wb = self.log_batch();
        if entries.len() > 0 {
            let _ = wb.append_impl(raft_group_id, entries);
            return self.consume(ps, &mut wb);
        }
        assert(raft_entry::entry_views(entries@) =~= Seq::empty());
        assert(ps@.union_prefer_right(Pages::empty()) =~= ps@);
        Ok(0)
    }

    /// Stores the raft state of a region, in its encoded form.
    pub fn put_raft_state(&self, ps: &mut MockPageStorage, raft_group_id: u64, state: &[u8]) -> (r:
        Result<(), EngineError>)
        ensures
            r is Ok,
            final(ps)@ == old(ps)@.insert(keys::spec_raft_state_key(raft_group_id), state@),
    {
        let mut wb = self.log_batch();
        let key = keys::raft_state_key(raft_group_id);
        let ghost p = ps@;
        let _ = wb.put_msg(&key, state);
        let _ = self.consume(ps, &mut wb);
        assert(p.union_prefer_right(Pages::empty().insert(key@, state@)) =~= p.insert(
            key@,
            state@,
        ));
        Ok(())
    }

    /// Asks for entries of a region's log to be dropped through an empty batch, which leaves
    /// the stored pages as they are; gives `from - to` as a wrapping number.
    pub fn gc(&self, ps: &mut MockPageStorage, raft_group_id: u64, from: u64, to: u64) -> (r: Result<
        usize,
        EngineError,
    >)
        ensures
            r == Ok::<usize, EngineError>(from.wrapping_sub(to) as usize),
            final(ps)@ == old(ps)@,
    {
        let ghost p = ps@;
        let mut raft_wb = self.log_batch();
        raft_wb.cut_logs(raft_group_id, from, to);
        proof {
            without_logs_of_nothing(raft_group_id, from as int, to as int);
            assert(p.union_prefer_right(Pages::empty()) =~= p);
        }
        let _ = self.consume(ps, &mut raft_wb);
        Ok(#[verifier::truncate] (from.wrapping_sub(to) as usize))
    }

    /// Asks for entries of several regions' logs to be dropped, as `gc` does; gives how many
    /// indexes that covers.
    pub fn batch_gc(&self, ps: &mut MockPageStorage, groups: &Vec<RaftLogGCTask>) -> (r: Result<
        usize,
        EngineError,
    >)
        requires
            forall|i: int|
                0 <= i < groups@.len() ==> (#[trigger] groups@[i]).from <= groups@[i].to,
            gc_total(groups@) <= usize::MAX,
        ensures
            r == Ok::<usize, EngineError>(gc_total(groups@) as usize),
            final(ps)@ == old(ps)@,
    {
        let ghost p = ps@;
        let ghost g = groups@;
        let mut total: usize = 0;
        let mut raft_wb = self.log_batch();
        let n: usize = groups.len();
        let mut i: usize = 0;
        assert(g.take(0) =~= Seq::empty());
        while i < n
            invariant
                i <= n,
                n == g.len(),
                g == groups@,
                forall|j: int| 0 <= j < g.len() ==> (#[trigger] g[j]).from <= g[j].to,
                gc_total(g) <= usize::MAX,
                total == gc_total(g.take(i as int)),
                raft_wb@ == Pages::empty(),
            decreases n - i,
        {
            let task = &groups[i];
            proof {
                assert(g.take(i + 1).drop_last() =~= g.take(i as int));
                assert(g.take(i + 1).last() == g[i as int]);
                assert(g[i as int].from <= g[i as int].to);
                gc_total_grows(g, i as int);
                gc_total_grows(g, i + 1);
                without_logs_of_nothing(task.raft_group_id, task.from as int, task.to as int);
            }
            raft_wb.cut_logs(task.raft_group_id, task.from, task.to);
            total = total + (task.to - task.from) as usize;
            i = i + 1;
        }
        proof {
            assert(g.take(n as int) =~= g);
            assert(p.union_prefer_right(Pages::empty()) =~= p);
        }
        let _ = self.consume(ps, &mut raft_wb);
        Ok(total)
    }

    /// Nothing has to be made durable beyond what a batch does.
    pub fn sync(&self) -> (r: Result<(), EngineError>)
        ensures
            r is Ok,
    {
        Ok(())
    }

    /// There are no files that expire.
    pub fn purge_expired_files(&self) -> (r: Result<Vec<u64>, EngineError>)
        ensures
            r is Ok,
            r->Ok_0@.len() == 0,
    {
        Ok(Vec::new())
    }

    /// The engine keeps no cache of entries.
    pub fn has_builtin_entry_cache(&self) -> (r: bool)
        ensures
            !r,
    {
        false
    }

    /// There are no statistics.
    pub fn dump_stats(&self) -> (r: Result<String, EngineError>)
        ensures
            r is Ok,
            r->Ok_0@.len() == 0,
    {
        Ok(String::new())
    }

    /// The size is not known and counts as 0.
    pub fn get_engine_size(&self) -> (r: Result<u64, EngineError>)
        ensures
            r == Ok::<u64, EngineError>(0),
    {
        Ok(0)
    }
}

/// Page `n` is the first of some pages that holds no entry.
pub open spec fn first_other(pages: Seq<Seq<u8>>, n: int) -> bool {
    &&& 0 <= n < pages.len()
    &&& !is_entry(pages[n])
    &&& forall|i: int| 0 <= i < n ==> is_entry(#[trigger] pages[i])
}

} // verus!
