//! What is read of raft logs, raft states and pages after they were stored.

use vstd::prelude::*;

use crate::bytes;
use crate::bytes_map;
use crate::fast_add_peer;
use crate::ffi::BaseBuffView;
use crate::keys;
use crate::page_storage::{MockPSWriteBatch, MockPageStorage, Pages};
use crate::ps_engine;
use crate::ps_engine::{EngineError, PSEngine, PSEngineWriteBatch, RaftLogGCTask};
use crate::ps_engine_laws;
use crate::raft_entry;
use crate::raft_entry::{Entry, EntryType, EntryView};

verus! {

/// The page of one entry of a region's log.
pub open spec fn log_page_id(region_id: u64, index: u64) -> Seq<u8> {
    seq![1u8, 2u8] + keys::be8(region_id) + seq![1u8] + keys::be8(index)
}

/// The page of a region's raft state.
pub open spec fn state_page_id(region_id: u64) -> Seq<u8> {
    seq![1u8, 2u8] + keys::be8(region_id) + seq![2u8]
}

/// The indexes of some entries rise, and leave out the first and the last number.
pub open spec fn is_log(es: Seq<Entry>) -> bool {
    &&& forall|i: int, j: int|
        0 <= i < j < es.len() ==> (#[trigger] es[i]).index < (#[trigger] es[j]).index
    &&& forall|i: int| 0 <= i < es.len() ==> 0 < (#[trigger] es[i]).index < u64::MAX
}

/// Both storages have the same page, or both have none.
pub open spec fn same_page(a: Pages, b: Pages, id: Seq<u8>) -> bool {
    &&& a.contains_key(id) == b.contains_key(id)
    &&& a.contains_key(id) ==> a[id] == b[id]
}

/// Two reads of an entry came to the same.
pub open spec fn same_read(
    a: Result<Option<Entry>, EngineError>,
    b: Result<Option<Entry>, EngineError>,
) -> bool {
    match (a, b) {
        (Ok(Some(x)), Ok(Some(y))) => x@ == y@,
        (Ok(None), Ok(None)) => true,
        (Err(_), Err(_)) => true,
        _ => false,
    }
}

proof fn log_key_is(region_id: u64, index: u64)
    ensures
        keys::spec_raft_log_key(region_id, index) == log_page_id(region_id, index),
        keys::spec_raft_state_key(region_id) == state_page_id(region_id),
{
    assert(keys::spec_raft_log_key(region_id, index) =~= log_page_id(region_id, index));
    assert(keys::spec_raft_state_key(region_id) =~= state_page_id(region_id));
}

/// The keys under which things are stored: the log, the raft state and the apply state of a
/// region stand behind its number in one place, its local state in another, the store's own keys
/// before them, and users' keys behind a `z`.
pub proof fn keys_are_laid_out(
    region_id: u64,
    index: u64,
    log: Vec<u8>,
    raft: Vec<u8>,
    apply: Vec<u8>,
    state: Vec<u8>,
    ident: Vec<u8>,
    prepare: Vec<u8>,
    user: &[u8],
    data: Vec<u8>,
)
    requires
        call_ensures(keys::raft_log_key, (region_id, index), log),
        call_ensures(keys::raft_state_key, (region_id,), raft),
        call_ensures(keys::apply_state_key, (region_id,), apply),
        call_ensures(keys::region_state_key, (region_id,), state),
        call_ensures(keys::store_ident_key, (), ident),
        call_ensures(keys::prepare_bootstrap_key, (), prepare),
        call_ensures(keys::data_key, (user,), data),
    ensures
        log@ == seq![1u8, 2u8] + keys::be8(region_id) + seq![1u8] + keys::be8(index),
        raft@ == seq![1u8, 2u8] + keys::be8(region_id) + seq![2u8],
        apply@ == seq![1u8, 2u8] + keys::be8(region_id) + seq![3u8],
        state@ == seq![1u8, 3u8] + keys::be8(region_id) + seq![1u8],
        ident@ == seq![1u8, 1u8],
        prepare@ == seq![1u8, 2u8],
        data@ == seq![122u8] + user@,
{
    log_key_is(region_id, index);
    assert(apply@ =~= seq![1u8, 2u8] + keys::be8(region_id) + seq![3u8]);
    assert(state@ =~= seq![1u8, 3u8] + keys::be8(region_id) + seq![1u8]);
}

/// A number is stored with its most significant byte first, so that keys stand in the order of
/// their numbers.
pub proof fn numbers_are_laid_out(x: u64)
    ensures
        keys::be8(x).len() == 8,
        x == keys::be8(x)[0] * 0x100_0000_0000_0000 + keys::be8(x)[1] * 0x1_0000_0000_0000
            + keys::be8(x)[2] * 0x100_0000_0000 + keys::be8(x)[3] * 0x1_0000_0000 + keys::be8(
            x,
        )[4] * 0x100_0000 + keys::be8(x)[5] * 0x1_0000 + keys::be8(x)[6] * 0x100 + keys::be8(x)[7],
{
    assert(x == ((x >> 56) as u8) * 0x100_0000_0000_0000 + ((x >> 48) as u8) * 0x1_0000_0000_0000
        + ((x >> 40) as u8) * 0x100_0000_0000 + ((x >> 32) as u8) * 0x1_0000_0000 + ((x
        >> 24) as u8) * 0x100_0000 + ((x >> 16) as u8) * 0x1_0000 + ((x >> 8) as u8) * 0x100 + (
    x as u8)) by (bit_vector);
}

/// A key of a user comes back out of its data key, which is known as one.
pub proof fn data_keys_come_back(user: &[u8], data: &[u8], valid: bool, origin: &[u8])
    requires
        data@ == seq![122u8] + user@,
        call_ensures(keys::validate_data_key, (data,), valid),
        call_ensures(keys::origin_key, (data,), origin),
    ensures
        valid,
        origin@ == user@,
{
    assert((seq![122u8] + user@).skip(1) =~= user@);
}

/// A key is taken for a data key exactly where it starts with a `z`.
pub proof fn data_keys_are_known(key: &[u8], valid: bool)
    requires
        call_ensures(keys::validate_data_key, (key,), valid),
    ensures
        valid <==> key@.len() > 0 && key@[0] == 122,
{
}

/// An entry that was appended is read back under its index, unless a later one with its index
/// was appended with it.
pub proof fn appended_entry_is_read(
    engine: &PSEngine,
    ps: &mut MockPageStorage,
    region_id: u64,
    entries: &Vec<Entry>,
    n: Result<usize, EngineError>,
    i: int,
    after: &MockPageStorage,
    r: Result<Option<Entry>, EngineError>,
)
    requires
        call_ensures(PSEngine::append, (engine, ps, region_id, entries), n),
        0 <= i < entries@.len(),
        entries@[i].index != 0,
        forall|j: int| i < j < entries@.len() ==> (#[trigger] entries@[j]).index
            != entries@[i].index,
        after@ == final(ps)@,
        call_ensures(PSEngine::get_entry, (engine, after, region_id, entries@[i].index), r),
    ensures
        n is Ok,
        r is Ok && r->Ok_0 is Some,
        (r->Ok_0->0)@ == entries@[i]@,
{
    let es = raft_entry::entry_views(entries@);
    assert(es[i] == entries@[i]@);
    assert forall|j: int| i < j < es.len() implies (#[trigger] es[j]).index != es[i].index by {
        assert(es[j] == entries@[j]@);
    }
    ps_engine_laws::stored_entry_is_read(old(ps)@, region_id, es, i);
}

/// A log that was appended is read back whole and in its order, behind what the buffer held,
/// where the storage held nothing of the region's log.
pub proof fn appended_log_is_read(
    engine: &PSEngine,
    ps: &mut MockPageStorage,
    region_id: u64,
    entries: &Vec<Entry>,
    n: Result<usize, EngineError>,
    after: &MockPageStorage,
    buf: &mut Vec<Entry>,
    r: Result<(), EngineError>,
)
    requires
        call_ensures(PSEngine::append, (engine, ps, region_id, entries), n),
        is_log(entries@),
        bytes_map::range_of(
            old(ps)@,
            log_page_id(region_id, 0),
            log_page_id(region_id, u64::MAX),
        ) == Pages::empty(),
        after@ == final(ps)@,
        call_ensures(PSEngine::get_all_entries_to, (engine, after, region_id, buf), r),
    ensures
        n is Ok,
        r is Ok,
        final(buf)@.len() == old(buf)@.len() + entries@.len(),
        forall|i: int|
            0 <= i < old(buf)@.len() ==> (#[trigger] final(buf)@[i])@ == old(buf)@[i]@,
        forall|i: int|
            0 <= i < entries@.len() ==> (#[trigger] final(buf)@[old(buf)@.len() + i])@
                == entries@[i]@,
{
    let es = raft_entry::entry_views(entries@);
    log_key_is(region_id, 0);
    log_key_is(region_id, u64::MAX);
    assert forall|i: int, j: int| 0 <= i < j < es.len() implies (#[trigger] es[i]).index < (
    #[trigger] es[j]).index by {
        assert(entries@[i].index < entries@[j].index);
    }
    assert forall|i: int| 0 <= i < es.len() implies 0 < (#[trigger] es[i]).index < u64::MAX
        && ps_engine::round_trips(es[i]) by {
        assert(es[i] == entries@[i]@);
    }
    ps_engine_laws::stored_log_is_read(old(ps)@, region_id, es);
    let b = raft_entry::entry_views(old(buf)@);
    let a = raft_entry::entry_views(final(buf)@);
    assert(a == b + es);
    assert(a.len() == final(buf)@.len());
    assert forall|i: int| 0 <= i < old(buf)@.len() implies (#[trigger] final(buf)@[i])@
        == old(buf)@[i]@ by {
        assert(a[i] == final(buf)@[i]@);
        assert(b[i] == old(buf)@[i]@);
    }
    assert forall|i: int| 0 <= i < entries@.len() implies (#[trigger] final(buf)@[old(buf)@.len()
        + i])@ == entries@[i]@ by {
        assert(a[b.len() + i] == es[i]);
        assert(a[old(buf)@.len() + i] == final(buf)@[old(buf)@.len() + i]@);
    }
}

/// Appending to the log of one region changes no page of another region's log, and no raft
/// state.
pub proof fn other_logs_stay(
    engine: &PSEngine,
    ps: &mut MockPageStorage,
    region_id: u64,
    entries: &Vec<Entry>,
    n: Result<usize, EngineError>,
    other: u64,
    index: u64,
)
    requires
        call_ensures(PSEngine::append, (engine, ps, region_id, entries), n),
    ensures
        other != region_id ==> same_page(old(ps)@, final(ps)@, log_page_id(other, index)),
        same_page(old(ps)@, final(ps)@, state_page_id(other)),
{
    let es = raft_entry::entry_views(entries@);
    log_key_is(other, index);
    if other != region_id {
        ps_engine_laws::other_logs_untouched(old(ps)@, region_id, es, other, index);
    }
    let k = state_page_id(other);
    ps_engine_laws::with_entries_keys(Pages::empty(), region_id, es, k);
    assert forall|i: int| 0 <= i < es.len() implies k != keys::spec_raft_log_key(
        region_id,
        (#[trigger] es[i]).index,
    ) by {
        keys::state_keys_apart(other, region_id, es[i].index);
    }
}

/// What is read of an entry depends on its page alone.
pub proof fn same_pages_read_the_same(
    engine: &PSEngine,
    a: &MockPageStorage,
    b: &MockPageStorage,
    region_id: u64,
    index: u64,
    x: Result<Option<Entry>, EngineError>,
    y: Result<Option<Entry>, EngineError>,
)
    requires
        same_page(a@, b@, log_page_id(region_id, index)),
        call_ensures(PSEngine::get_entry, (engine, a, region_id, index), x),
        call_ensures(PSEngine::get_entry, (engine, b, region_id, index), y),
    ensures
        same_read(x, y),
        !a@.contains_key(log_page_id(region_id, index)) ==> x is Ok && x->Ok_0 is None,
{
    log_key_is(region_id, index);
}

/// A raft state that was stored is read back; the states of other regions and all logs stay.
pub proof fn raft_state_is_read(
    engine: &PSEngine,
    ps: &mut MockPageStorage,
    region_id: u64,
    state: &[u8],
    w: Result<(), EngineError>,
    after: &MockPageStorage,
    r: Option<Vec<u8>>,
    other: u64,
    index: u64,
)
    requires
        call_ensures(PSEngine::put_raft_state, (engine, ps, region_id, state), w),
        after@ == final(ps)@,
        call_ensures(PSEngine::get_raft_state, (engine, after, region_id), r),
    ensures
        w is Ok,
        state@.len() > 0 ==> r is Some && (r->0)@ == state@,
        state@.len() == 0 ==> r is None,
        other != region_id ==> same_page(old(ps)@, final(ps)@, state_page_id(other)),
        same_page(old(ps)@, final(ps)@, log_page_id(other, index)),
{
    log_key_is(other, index);
    log_key_is(region_id, index);
    keys::state_keys_apart(region_id, other, index);
}

/// A raft state is read from the page of its region.
pub proof fn raft_state_has_its_page(
    engine: &PSEngine,
    ps: &MockPageStorage,
    region_id: u64,
    r: Option<Vec<u8>>,
)
    requires
        call_ensures(PSEngine::get_raft_state, (engine, ps, region_id), r),
    ensures
        r is Some <==> ps@.contains_key(state_page_id(region_id)) && ps@[state_page_id(
            region_id,
        )].len() > 0,
        r is Some ==> (r->0)@ == ps@[state_page_id(region_id)],
{
    log_key_is(region_id, 0);
}

/// A page that a batch puts and that is then written is read back; the batch is empty
/// afterwards, its pages were counted, and pages that it did not hold stay.
pub proof fn batch_is_written(
    engine: &PSEngine,
    b: &mut PSEngineWriteBatch,
    id: &[u8],
    value: &[u8],
    p: Result<(), EngineError>,
    c: &mut PSEngineWriteBatch,
    ps: &mut MockPageStorage,
    n: Result<usize, EngineError>,
    after: &MockPageStorage,
    r: Option<Vec<u8>>,
    other: Seq<u8>,
)
    requires
        call_ensures(PSEngineWriteBatch::put_page, (b, id, value), p),
        old(c)@ == final(b)@,
        call_ensures(PSEngine::consume, (engine, ps, c), n),
        after@ == final(ps)@,
        call_ensures(PSEngine::get_value, (engine, after, id), r),
    ensures
        p is Ok,
        n == Ok::<usize, EngineError>(old(c)@.dom().len() as usize),
        value@.len() > 0 ==> r is Some && (r->0)@ == value@,
        value@.len() == 0 ==> r is None,
        final(c)@ =~= Map::empty(),
        !old(c)@.contains_key(other) ==> same_page(old(ps)@, final(ps)@, other),
        old(c)@.contains_key(other) ==> same_page(old(c)@, final(ps)@, other),
        other != id@ ==> same_page(old(b)@, final(b)@, other),
{
}

/// A page that is deleted from a batch is not in it; other pages stay.
pub proof fn deleted_page_is_gone(
    b: &mut PSEngineWriteBatch,
    id: &[u8],
    r: Result<(), EngineError>,
    other: Seq<u8>,
)
    requires
        call_ensures(PSEngineWriteBatch::del_page, (b, id), r),
    ensures
        r is Ok,
        !final(b)@.contains_key(id@),
        other != id@ ==> same_page(old(b)@, final(b)@, other),
{
}

/// Two batches that are merged hold the pages of both; where both hold a page, that of the batch
/// that is merged in stands.
pub proof fn batches_are_merged(
    b: &mut PSEngineWriteBatch,
    src: PSEngineWriteBatch,
    r: Result<(), EngineError>,
    id: Seq<u8>,
)
    requires
        call_ensures(PSEngineWriteBatch::merge, (b, src), r),
    ensures
        r is Ok,
        src@.contains_key(id) ==> same_page(src@, final(b)@, id),
        !src@.contains_key(id) ==> same_page(old(b)@, final(b)@, id),
{
}

/// Appending to a batch puts a page for each entry, which holds it, and no other one.
pub proof fn batch_takes_entries(
    b: &mut PSEngineWriteBatch,
    region_id: u64,
    entries: &Vec<Entry>,
    r: Result<(), EngineError>,
    i: int,
    other: Seq<u8>,
)
    requires
        call_ensures(PSEngineWriteBatch::append, (b, region_id, entries), r),
        0 <= i < entries@.len(),
        forall|j: int| i < j < entries@.len() ==> (#[trigger] entries@[j]).index
            != entries@[i].index,
        forall|j: int|
            0 <= j < entries@.len() ==> other != log_page_id(
                region_id,
                (#[trigger] entries@[j]).index,
            ),
    ensures
        r is Ok,
        final(b)@.contains_key(log_page_id(region_id, entries@[i].index)),
        raft_entry::entry_of_bytes(final(b)@[log_page_id(region_id, entries@[i].index)]) == Some(
            entries@[i]@,
        ),
        same_page(old(b)@, final(b)@, other),
{
    let es = raft_entry::entry_views(entries@);
    assert(es[i] == entries@[i]@);
    assert forall|j: int| i < j < es.len() implies (#[trigger] es[j]).index != es[i].index by {
        assert(es[j] == entries@[j]@);
    }
    log_key_is(region_id, entries@[i].index);
    ps_engine_laws::with_entries_at(old(b)@, region_id, es, i);
    assert(ps_engine::round_trips(entries@[i]@));
    untouched(old(b)@, region_id, es, other);
}

proof fn untouched(p: Pages, region_id: u64, es: Seq<EntryView>, other: Seq<u8>)
    requires
        forall|j: int|
            0 <= j < es.len() ==> other != log_page_id(region_id, (#[trigger] es[j]).index),
    ensures
        same_page(p, ps_engine::with_entries(p, region_id, es), other),
    decreases es.len(),
{
    if es.len() > 0 {
        let q = es.drop_last();
        assert forall|j: int| 0 <= j < q.len() implies other != log_page_id(
            region_id,
            (#[trigger] q[j]).index,
        ) by {
            assert(q[j] == es[j]);
        }
        untouched(p, region_id, q, other);
        assert(es[es.len() - 1] == es.last());
        log_key_is(region_id, es.last().index);
    }
}

/// Cutting off a log takes the pages of the entries from one index on and before another out of
/// the batch, and no other one.
pub proof fn logs_are_cut(
    b: &mut PSEngineWriteBatch,
    region_id: u64,
    from: u64,
    to: u64,
    other: u64,
    index: u64,
)
    requires
        call_ensures(PSEngineWriteBatch::cut_logs, (b, region_id, from, to), ()),
    ensures
        other == region_id && from <= index < to ==> !final(b)@.contains_key(
            log_page_id(other, index),
        ),
        !(other == region_id && from <= index < to) ==> same_page(
            old(b)@,
            final(b)@,
            log_page_id(other, index),
        ),
        same_page(old(b)@, final(b)@, state_page_id(other)),
{
    log_key_is(other, index);
    let k = log_page_id(other, index);
    ps_engine_laws::without_logs_at(old(b)@, region_id, from as int, to as int, k);
    if exists|x: u64| from <= x < to && k == #[trigger] keys::spec_raft_log_key(region_id, x) {
        let x = choose|x: u64|
            from <= x < to && k == #[trigger] keys::spec_raft_log_key(region_id, x);
        keys::raft_log_keys_apart(other, index, region_id, x);
    }
    if other == region_id && from <= index < to {
        assert(k == keys::spec_raft_log_key(region_id, index));
    }
    let s = state_page_id(other);
    ps_engine_laws::without_logs_at(old(b)@, region_id, from as int, to as int, s);
    if exists|x: u64| from <= x < to && s == #[trigger] keys::spec_raft_log_key(region_id, x) {
        let x = choose|x: u64|
            from <= x < to && s == #[trigger] keys::spec_raft_log_key(region_id, x);
        keys::state_keys_apart(other, region_id, x);
    }
}

/// A batch is known by its pages: it is made empty, cleared empty, counted by its pages, and its
/// raft state stands in the page of the region.
pub proof fn batch_is_known(
    helper: isize,
    fresh: PSEngineWriteBatch,
    engine: &PSEngine,
    from_engine: PSEngineWriteBatch,
    c: &mut PSEngineWriteBatch,
    b: &PSEngineWriteBatch,
    size: usize,
    persist: usize,
    s: &mut PSEngineWriteBatch,
    region_id: u64,
    state: &[u8],
    r: Result<(), EngineError>,
    other: Seq<u8>,
)
    requires
        call_ensures(PSEngineWriteBatch::new, (helper,), fresh),
        call_ensures(PSEngine::log_batch, (engine,), from_engine),
        call_ensures(PSEngineWriteBatch::clear, (c,), ()),
        call_ensures(PSEngineWriteBatch::data_size, (b,), size),
        call_ensures(PSEngineWriteBatch::persist_size, (b,), persist),
        call_ensures(PSEngineWriteBatch::put_raft_state, (s, region_id, state), r),
    ensures
        !fresh@.contains_key(other),
        !from_engine@.contains_key(other),
        !final(c)@.contains_key(other),
        size == b@.dom().len() && persist == size,
        r is Ok,
        final(s)@.contains_key(state_page_id(region_id)),
        final(s)@[state_page_id(region_id)] == state@,
        other != state_page_id(region_id) ==> same_page(old(s)@, final(s)@, other),
{
    log_key_is(region_id, 0);
}

/// Cleaning a region writes what the batch held, but for the region's raft state and the entries
/// of its log between two indexes, and leaves the batch empty.
pub proof fn cleaning_writes_the_rest(
    engine: &PSEngine,
    ps: &mut MockPageStorage,
    region_id: u64,
    first: u64,
    last: u64,
    b: &mut PSEngineWriteBatch,
    r: Result<(), EngineError>,
    index: u64,
    other: Seq<u8>,
)
    requires
        call_ensures(PSEngine::clean, (engine, ps, region_id, first, last, b), r),
        other != state_page_id(region_id),
        forall|x: u64| first <= x <= last ==> other != #[trigger] log_page_id(region_id, x),
    ensures
        r is Ok,
        final(b)@ =~= Map::empty(),
        same_page(old(ps)@, final(ps)@, state_page_id(region_id)),
        first <= index <= last ==> same_page(
            old(ps)@,
            final(ps)@,
            log_page_id(region_id, index),
        ),
        old(b)@.contains_key(other) ==> same_page(old(b)@, final(ps)@, other),
        !old(b)@.contains_key(other) ==> same_page(old(ps)@, final(ps)@, other),
{
    let k = state_page_id(region_id);
    let base = old(b)@.remove(k);
    let (from, to) = (first as int, last + 1);
    log_key_is(region_id, index);
    ps_engine_laws::without_logs_at(base, region_id, from, to, k);
    ps_engine_laws::without_logs_at(base, region_id, from, to, log_page_id(region_id, index));
    ps_engine_laws::without_logs_at(base, region_id, from, to, other);
    if first <= index <= last {
        assert(log_page_id(region_id, index) == keys::spec_raft_log_key(region_id, index));
    }
    if exists|x: u64| from <= x < to && other == #[trigger] keys::spec_raft_log_key(region_id, x) {
        let x = choose|x: u64|
            from <= x < to && other == #[trigger] keys::spec_raft_log_key(region_id, x);
        log_key_is(region_id, x);
        assert(other != log_page_id(region_id, x));
    }
}

proof fn totals_join(a: Seq<RaftLogGCTask>, b: Seq<RaftLogGCTask>)
    ensures
        ps_engine::gc_total(a + b) == ps_engine::gc_total(a) + ps_engine::gc_total(b),
    decreases b.len(),
{
    if b.len() == 0 {
        assert(a + b =~= a);
    } else {
        assert((a + b).drop_last() =~= a + b.drop_last());
        totals_join(a, b.drop_last());
    }
}

/// What is dropped for several regions is counted task by task: one task counts the indexes from
/// its first to its end, and two lists of tasks count together what they count apart.
pub proof fn dropped_entries_are_counted(
    engine: &PSEngine,
    a: &mut MockPageStorage,
    b: &mut MockPageStorage,
    c: &mut MockPageStorage,
    first: &Vec<RaftLogGCTask>,
    second: &Vec<RaftLogGCTask>,
    both: &Vec<RaftLogGCTask>,
    x: Result<usize, EngineError>,
    y: Result<usize, EngineError>,
    z: Result<usize, EngineError>,
)
    requires
        call_ensures(PSEngine::batch_gc, (engine, a, first), x),
        call_ensures(PSEngine::batch_gc, (engine, b, second), y),
        call_ensures(PSEngine::batch_gc, (engine, c, both), z),
        both@ == first@ + second@,
        0 <= ps_engine::gc_total(first@) <= usize::MAX,
        0 <= ps_engine::gc_total(second@) <= usize::MAX,
        0 <= ps_engine::gc_total(both@) <= usize::MAX,
    ensures
        x is Ok && y is Ok && z is Ok,
        z->Ok_0 == x->Ok_0 + y->Ok_0,
        first@.len() == 0 ==> x->Ok_0 == 0,
        first@.len() == 1 ==> x->Ok_0 == first@[0].to - first@[0].from,
{
    totals_join(first@, second@);
    if first@.len() == 1 {
        assert(first@.drop_last() =~= Seq::empty());
        reveal_with_fuel(ps_engine::gc_total, 2);
    }
}

/// Dropping old entries leaves the storage as it is.
pub proof fn dropping_leaves_pages(
    engine: &PSEngine,
    a: &mut MockPageStorage,
    region_id: u64,
    from: u64,
    to: u64,
    x: Result<usize, EngineError>,
    b: &mut MockPageStorage,
    groups: &Vec<RaftLogGCTask>,
    y: Result<usize, EngineError>,
)
    requires
        call_ensures(PSEngine::gc, (engine, a, region_id, from, to), x),
        call_ensures(PSEngine::batch_gc, (engine, b, groups), y),
    ensures
        x is Ok,
        y is Ok,
        final(a)@ == old(a)@,
        final(b)@ == old(b)@,
{
}

/// Pages that are written to a storage are read back, the batch is empty afterwards, and pages
/// that it did not hold stay; a storage knows which pages it has.
pub proof fn pages_are_read(
    ps: &mut MockPageStorage,
    wb: &mut MockPSWriteBatch,
    after: &MockPageStorage,
    id: BaseBuffView,
    page: Vec<u8>,
    raw_id: &[u8],
    has: bool,
    other: Seq<u8>,
)
    requires
        call_ensures(MockPageStorage::consume_write_batch, (ps, wb), ()),
        after@ == final(ps)@,
        call_ensures(MockPageStorage::handle_read_page, (after, id), page),
        call_ensures(MockPageStorage::has_page, (after, raw_id), has),
    ensures
        old(wb)@.contains_key(id@) ==> page@ == old(wb)@[id@],
        !old(wb)@.contains_key(id@) && old(ps)@.contains_key(id@) ==> page@ == old(ps)@[id@],
        has <==> old(ps)@.contains_key(raw_id@) || old(wb)@.contains_key(raw_id@),
        final(wb)@ =~= Map::empty(),
        !old(wb)@.contains_key(other) ==> same_page(old(ps)@, final(ps)@, other),
{
}

/// A scan of pages gives those from one identifier on and before another, each with its content,
/// in the order of the identifiers, and leaves none out.
pub proof fn scan_gives_all_pages(
    ps: &MockPageStorage,
    start: BaseBuffView,
    end: BaseBuffView,
    r: Vec<(Vec<u8>, Vec<u8>)>,
    id: Seq<u8>,
)
    requires
        call_ensures(MockPageStorage::handle_scan_page, (ps, start, end), r),
    ensures
        forall|i: int, j: int|
            0 <= i < j < r@.len() ==> bytes::lex_lt((#[trigger] r@[i]).0@, (#[trigger] r@[j]).0@),
        forall|i: int|
            0 <= i < r@.len() ==> {
                let k = (#[trigger] r@[i]).0@;
                &&& ps@.contains_key(k) && ps@[k] == r@[i].1@
                &&& !bytes::lex_lt(k, start@)
                &&& end@.len() == 0 || bytes::lex_lt(k, end@)
            },
        ps@.contains_key(id) && !bytes::lex_lt(id, start@) && (end@.len() == 0 || bytes::lex_lt(
            id,
            end@,
        )) ==> exists|i: int| 0 <= i < r@.len() && (#[trigger] r@[i]).0@ == id,
{
    let p = bytes_map::pair_views(r@);
    let m = bytes_map::range_of(ps@, start@, end@);
    bytes_map::map_of_sorted(p);
    assert forall|i: int, j: int| 0 <= i < j < r@.len() implies bytes::lex_lt(
        (#[trigger] r@[i]).0@,
        (#[trigger] r@[j]).0@,
    ) by {
        assert(bytes::lex_lt(p[i].0, p[j].0));
    }
    assert forall|i: int| 0 <= i < r@.len() implies {
        let k = (#[trigger] r@[i]).0@;
        &&& ps@.contains_key(k) && ps@[k] == r@[i].1@
        &&& !bytes::lex_lt(k, start@)
        &&& end@.len() == 0 || bytes::lex_lt(k, end@)
    } by {
        assert(m.contains_key(p[i].0));
        assert(m[p[i].0] == p[i].1);
    }
    if ps@.contains_key(id) && !bytes::lex_lt(id, start@) && (end@.len() == 0 || bytes::lex_lt(
        id,
        end@,
    )) {
        assert(m.contains_key(id));
        let i = choose|i: int| 0 <= i < p.len() && #[trigger] p[i].0 == id;
        assert(r@[i].0@ == id);
    }
}

/// Pages are put into a batch of the storage and taken out of it one by one, and batches are
/// joined like those of the engine.
pub proof fn storage_batches_work(
    a: &mut MockPSWriteBatch,
    id: BaseBuffView,
    page: BaseBuffView,
    d: &mut MockPSWriteBatch,
    m: &mut MockPSWriteBatch,
    src: &mut MockPSWriteBatch,
    c: &mut MockPSWriteBatch,
    b: &MockPSWriteBatch,
    size: u64,
    none: u8,
    ps: &MockPageStorage,
    ps_none: u8,
    other: Seq<u8>,
)
    requires
        call_ensures(MockPSWriteBatch::put_page, (a, id, page), ()),
        call_ensures(MockPSWriteBatch::del_page, (d, id), ()),
        call_ensures(MockPSWriteBatch::merge, (m, src), ()),
        call_ensures(MockPSWriteBatch::clear, (c,), ()),
        call_ensures(MockPSWriteBatch::size, (b,), size),
        call_ensures(MockPSWriteBatch::is_empty, (b,), none),
        call_ensures(MockPageStorage::ps_is_empty, (ps,), ps_none),
    ensures
        final(a)@.contains_key(id@) && final(a)@[id@] == page@,
        other != id@ ==> same_page(old(a)@, final(a)@, other),
        !final(d)@.contains_key(id@),
        other != id@ ==> same_page(old(d)@, final(d)@, other),
        old(src)@.contains_key(other) ==> same_page(old(src)@, final(m)@, other),
        !old(src)@.contains_key(other) ==> same_page(old(m)@, final(m)@, other),
        !final(src)@.contains_key(other),
        !final(c)@.contains_key(other),
        size == b@.dom().len(),
        none == 1 || none == 0,
        none == 1 ==> !b@.contains_key(other),
        none == 0 ==> b@ != Pages::empty(),
        ps_none == 1 || ps_none == 0,
        ps_none == 1 ==> !ps@.contains_key(other),
        ps_none == 0 ==> ps@ != Pages::empty(),
{
}

proof fn stored_range(
    before: Pages,
    region_id: u64,
    es: Seq<EntryView>,
    low: u64,
    high: u64,
    a: int,
    b: int,
)
    requires
        ps_engine_laws::indexes_rise(es),
        forall|i: int|
            0 <= i < es.len() ==> 0 < (#[trigger] es[i]).index < u64::MAX
                && ps_engine::round_trips(es[i]),
        bytes_map::range_of(before, log_page_id(region_id, low), log_page_id(region_id, high))
            == Pages::empty(),
        0 <= a <= b <= es.len(),
        forall|i: int|
            0 <= i < es.len() ==> (a <= i < b <==> low <= (#[trigger] es[i]).index < high),
    ensures
        ({
            let after = before.union_prefer_right(
                ps_engine::with_entries(Pages::empty(), region_id, es),
            );
            let pages = ps_engine::log_pages(after, region_id, low, high);
            &&& pages.len() == b - a
            &&& forall|i: int| 0 <= i < pages.len() ==> ps_engine::is_entry(#[trigger] pages[i])
            &&& ps_engine::entries_in(pages) == es.subrange(a, b)
        }),
{
    let start = log_page_id(region_id, low);
    let end = log_page_id(region_id, high);
    log_key_is(region_id, low);
    log_key_is(region_id, high);
    let w = ps_engine::with_entries(Pages::empty(), region_id, es);
    let after = before.union_prefer_right(w);
    let m = bytes_map::range_of(after, start, end);
    let part = es.subrange(a, b);
    let p = Seq::new(
        part.len(),
        |i: int| (log_page_id(region_id, part[i].index), raft_entry::entry_bytes(part[i])),
    );
    assert forall|i: int, j: int| 0 <= i < j < p.len() implies bytes::lex_lt(
        #[trigger] p[i].0,
        #[trigger] p[j].0,
    ) by {
        assert(es[a + i].index < es[a + j].index);
        log_key_is(region_id, part[i].index);
        log_key_is(region_id, part[j].index);
        keys::raft_log_keys_rise(region_id, part[i].index, part[j].index);
    }
    assert forall|k: Seq<u8>| #[trigger] m.contains_key(k) implies exists|i: int|
        0 <= i < p.len() && #[trigger] p[i].0 == k by {
        ps_engine_laws::with_entries_keys(Pages::empty(), region_id, es, k);
        if before.contains_key(k) {
            assert(bytes_map::range_of(before, start, end).contains_key(k));
        }
        assert(w.contains_key(k));
        let i = choose|i: int|
            0 <= i < es.len() && k == keys::spec_raft_log_key(region_id, (#[trigger] es[i]).index);
        log_key_is(region_id, es[i].index);
        keys::raft_log_keys_rise(region_id, es[i].index, low);
        keys::raft_log_keys_rise(region_id, es[i].index, high);
        assert(low <= es[i].index < high);
        assert(part[i - a] == es[i]);
        assert(p[i - a].0 == k);
    }
    assert forall|i: int| 0 <= i < p.len() implies m.contains_key(#[trigger] p[i].0) && m[p[i].0]
        == p[i].1 by {
        let x = a + i;
        assert(part[i] == es[x]);
        assert forall|j: int| x < j < es.len() implies (#[trigger] es[j]).index != es[x].index by {
            assert(es[x].index < es[j].index);
        }
        ps_engine_laws::with_entries_at(Pages::empty(), region_id, es, x);
        assert(low <= es[x].index < high);
        log_key_is(region_id, es[x].index);
        keys::raft_log_keys_rise(region_id, es[x].index, low);
        keys::raft_log_keys_rise(region_id, es[x].index, high);
    }
    bytes_map::map_of_is(p, m);
    bytes_map::pairs_of_is(p);
    assert forall|i: int| 0 <= i < p.len() implies (#[trigger] p[i]).1.len() > 0 by {
        assert(part[i] == es[a + i]);
        assert(ps_engine::round_trips(es[a + i]));
    }
    ps_engine_laws::all_filled(p);
    let pages = ps_engine::log_pages(after, region_id, low, high);
    assert(pages == Seq::new(p.len(), |i: int| p[i].1));
    assert forall|i: int| 0 <= i < part.len() implies raft_entry::entry_of_bytes(
        #[trigger] pages[i],
    ) == Some(part[i]) by {
        assert(part[i] == es[a + i]);
        assert(ps_engine::round_trips(es[a + i]));
    }
    assert(ps_engine::entries_in(pages) =~= part);
}

/// Of a log that was appended, a read without a limit gives the entries from one index on and
/// before another, in their order and behind what the buffer held, where the storage held
/// nothing of that part of the region's log.
pub proof fn appended_range_is_read(
    engine: &PSEngine,
    ps: &mut MockPageStorage,
    region_id: u64,
    entries: &Vec<Entry>,
    n: Result<usize, EngineError>,
    after: &MockPageStorage,
    low: u64,
    high: u64,
    buf: &mut Vec<Entry>,
    r: Result<usize, EngineError>,
    a: int,
    b: int,
)
    requires
        call_ensures(PSEngine::append, (engine, ps, region_id, entries), n),
        is_log(entries@),
        bytes_map::range_of(old(ps)@, log_page_id(region_id, low), log_page_id(region_id, high))
            == Pages::empty(),
        after@ == final(ps)@,
        ps_engine::total_len(ps_engine::log_pages(after@, region_id, low, high)) < usize::MAX,
        call_ensures(
            PSEngine::fetch_entries_to,
            (engine, after, region_id, low, high, None::<usize>, buf),
            r,
        ),
        0 <= a <= b <= entries@.len(),
        forall|i: int|
            0 <= i < entries@.len() ==> (a <= i < b <==> low <= (#[trigger] entries@[i]).index
                < high),
    ensures
        r is Ok,
        final(buf)@.len() == old(buf)@.len() + (b - a),
        r->Ok_0 == b - a + 1,
        forall|i: int|
            0 <= i < old(buf)@.len() ==> (#[trigger] final(buf)@[i])@ == old(buf)@[i]@,
        forall|i: int|
            0 <= i < b - a ==> (#[trigger] final(buf)@[old(buf)@.len() + i])@ == entries@[a
                + i]@,
{
    let es = raft_entry::entry_views(entries@);
    assert forall|i: int, j: int| 0 <= i < j < es.len() implies (#[trigger] es[i]).index < (
    #[trigger] es[j]).index by {
        assert(entries@[i].index < entries@[j].index);
    }
    assert forall|i: int| 0 <= i < es.len() implies 0 < (#[trigger] es[i]).index < u64::MAX
        && ps_engine::round_trips(es[i]) && (a <= i < b <==> low <= es[i].index < high) by {
        assert(es[i] == entries@[i]@);
    }
    stored_range(old(ps)@, region_id, es, low, high, a, b);
    let p = ps_engine::log_pages(after@, region_id, low, high);
    let max = usize::MAX as nat;
    if r is Err {
        let k = choose|k: int|
            {
                &&& #[trigger] ps_engine::fails_at(p, max, k)
                &&& raft_entry::entry_views(final(buf)@) == raft_entry::entry_views(old(buf)@)
                    + ps_engine::entries_in(p.take(k))
            };
        assert(ps_engine::fails_at(p, max, k));
        assert(ps_engine::is_entry(p[k]));
    } else {
        let k = r->Ok_0 - 1;
        if k < p.len() {
            ps_engine::total_len_grows(p, k);
        }
        assert(p.take(k) =~= p);
        let x = raft_entry::entry_views(old(buf)@);
        let y = raft_entry::entry_views(final(buf)@);
        assert(y == x + es.subrange(a, b));
        assert(y.len() == final(buf)@.len());
        assert forall|i: int| 0 <= i < old(buf)@.len() implies (#[trigger] final(buf)@[i])@
            == old(buf)@[i]@ by {
            assert(y[i] == final(buf)@[i]@);
            assert(x[i] == old(buf)@[i]@);
        }
        assert forall|i: int| 0 <= i < b - a implies (#[trigger] final(buf)@[old(buf)@.len() + i])@
            == entries@[a + i]@ by {
            assert(y[x.len() + i] == es.subrange(a, b)[i]);
            assert(y[old(buf)@.len() + i] == final(buf)@[old(buf)@.len() + i]@);
        }
    }
}

/// A limit only shortens a read: what is read under it is the first part of what is read
/// without it, and has an entry wherever there is one.
pub proof fn limit_shortens_a_read(
    engine: &PSEngine,
    ps: &MockPageStorage,
    region_id: u64,
    low: u64,
    high: u64,
    a: &mut Vec<Entry>,
    all: Result<usize, EngineError>,
    limit: usize,
    b: &mut Vec<Entry>,
    some: Result<usize, EngineError>,
)
    requires
        old(a)@.len() == 0,
        old(b)@.len() == 0,
        ps_engine::total_len(ps_engine::log_pages(ps@, region_id, low, high)) < usize::MAX,
        call_ensures(
            PSEngine::fetch_entries_to,
            (engine, ps, region_id, low, high, None::<usize>, a),
            all,
        ),
        call_ensures(
            PSEngine::fetch_entries_to,
            (engine, ps, region_id, low, high, Some(limit), b),
            some,
        ),
        all is Ok,
    ensures
        some is Ok,
        final(b)@.len() <= final(a)@.len(),
        some->Ok_0 == final(b)@.len() + 1,
        forall|i: int|
            0 <= i < final(b)@.len() ==> (#[trigger] final(b)@[i])@ == final(a)@[i]@,
        final(a)@.len() > 0 ==> final(b)@.len() > 0,
{
    let p = ps_engine::log_pages(ps@, region_id, low, high);
    let n = all->Ok_0 - 1;
    if n < p.len() {
        ps_engine::total_len_grows(p, n);
    }
    assert(n == p.len());
    assert(p.take(n) =~= p);
    let y = raft_entry::entry_views(final(a)@);
    let z = raft_entry::entry_views(final(b)@);
    let none = Seq::<EntryView>::empty();
    assert(raft_entry::entry_views(old(a)@) =~= none);
    assert(raft_entry::entry_views(old(b)@) =~= none);
    assert(y =~= ps_engine::entries_in(p));
    assert(y.len() == final(a)@.len());
    assert(z.len() == final(b)@.len());
    if some is Err {
        let k = choose|k: int|
            {
                &&& #[trigger] ps_engine::fails_at(p, limit as nat, k)
                &&& z == none + ps_engine::entries_in(p.take(k))
            };
        assert(ps_engine::fails_at(p, limit as nat, k));
        assert(ps_engine::is_entry(p[k]));
    } else {
        let m = some->Ok_0 - 1;
        assert(z =~= ps_engine::entries_in(p.take(m)));
        assert forall|i: int| 0 <= i < final(b)@.len() implies (#[trigger] final(b)@[i])@
            == final(a)@[i]@ by {
            assert(z[i] == final(b)@[i]@);
            assert(y[i] == final(a)@[i]@);
        }
    }
}

/// Writing a batch comes to the same with and without shrinking it.
pub proof fn shrinking_changes_nothing(
    engine: &PSEngine,
    a: &mut MockPageStorage,
    b: &mut PSEngineWriteBatch,
    x: Result<usize, EngineError>,
    c: &mut MockPageStorage,
    d: &mut PSEngineWriteBatch,
    y: Result<usize, EngineError>,
)
    requires
        old(a)@ == old(c)@,
        old(b)@ == old(d)@,
        call_ensures(PSEngine::consume, (engine, a, b), x),
        call_ensures(PSEngine::consume_and_shrink, (engine, c, d), y),
    ensures
        x == y,
        final(a)@ == final(c)@,
        final(b)@ == final(d)@,
{
}

/// Appending to a batch is the same under both of its names, and so is putting a page; a batch
/// says of itself that it is empty exactly where it holds a page.
pub proof fn batch_names_agree(
    a: &mut PSEngineWriteBatch,
    b: &mut PSEngineWriteBatch,
    region_id: u64,
    entries: &Vec<Entry>,
    x: Result<(), EngineError>,
    y: Result<(), EngineError>,
    c: &mut PSEngineWriteBatch,
    d: &mut PSEngineWriteBatch,
    id: &[u8],
    value: &[u8],
    u: Result<(), EngineError>,
    v: Result<(), EngineError>,
    s: &PSEngineWriteBatch,
    none: bool,
    page: Seq<u8>,
)
    requires
        old(a)@ == old(b)@,
        call_ensures(PSEngineWriteBatch::append, (a, region_id, entries), x),
        call_ensures(PSEngineWriteBatch::append_impl, (b, region_id, entries), y),
        old(c)@ == old(d)@,
        call_ensures(PSEngineWriteBatch::put_page, (c, id, value), u),
        call_ensures(PSEngineWriteBatch::put_msg, (d, id, value), v),
        call_ensures(PSEngineWriteBatch::is_empty, (s,), none),
    ensures
        x is Ok && y is Ok && u is Ok && v is Ok,
        final(a)@ == final(b)@,
        final(c)@ == final(d)@,
        s@.contains_key(page) ==> none,
        none ==> s@ != Pages::empty(),
{
}

/// The engine needs no syncing and no purging, has no cache and no statistics, and says that it
/// has no size; it knows its engine store once it was told.
pub proof fn engine_answers(
    fresh: PSEngine,
    e: &mut PSEngine,
    helper: isize,
    engine: &PSEngine,
    sync: Result<(), EngineError>,
    purged: Result<Vec<u64>, EngineError>,
    cache: bool,
    stats: Result<String, EngineError>,
    size: Result<u64, EngineError>,
)
    requires
        call_ensures(PSEngine::new, (), fresh),
        call_ensures(PSEngine::init, (e, helper), ()),
        call_ensures(PSEngine::sync, (engine,), sync),
        call_ensures(PSEngine::purge_expired_files, (engine,), purged),
        call_ensures(PSEngine::has_builtin_entry_cache, (engine,), cache),
        call_ensures(PSEngine::dump_stats, (engine,), stats),
        call_ensures(PSEngine::get_engine_size, (engine,), size),
    ensures
        fresh.engine_store_server_helper == 0,
        final(e).engine_store_server_helper == helper,
        sync is Ok,
        purged is Ok && purged->Ok_0@.len() == 0,
        !cache,
        stats is Ok && stats->Ok_0@.len() == 0,
        size == Ok::<u64, EngineError>(0),
{
}

/// A scan shows a visitor the pages of a range one after the other, from the state that it is
/// given to the one that it gives back, until the visitor has enough or fails: a visitor that
/// never does is shown every page, and one that fails ends the scan with its failure.
pub proof fn pages_are_visited<S, E, F: Fn(S, &[u8], &[u8]) -> (S, Result<bool, E>)>(
    engine: &PSEngine,
    ps: &MockPageStorage,
    start: &[u8],
    end: &[u8],
    state: S,
    f: F,
    r: (S, Result<(), E>),
) -> (v: (Seq<S>, Seq<Result<bool, E>>))
    requires
        call_ensures(PSEngine::scan::<S, E, F>, (engine, ps, start, end, state, f), r),
    ensures
        v.0.len() == v.1.len() + 1,
        v.0[0] == state,
        v.0.last() == r.0,
        ({
            let pages = ps_engine::pages_between(ps@, start@, end@);
            let n = v.1.len();
            &&& n <= pages.len()
            &&& n < pages.len() ==> n > 0 && v.1.last() != Ok::<bool, E>(true)
            &&& forall|i: int| 0 <= i < n - 1 ==> #[trigger] v.1[i] == Ok::<bool, E>(true)
            &&& forall|i: int|
                0 <= i < n ==> ps_engine::shown_page(
                    f,
                    pages[i],
                    v.0[i],
                    v.0[i + 1],
                    #[trigger] v.1[i],
                )
            &&& r.1 is Err <==> n > 0 && v.1.last() is Err
            &&& r.1 is Err ==> r.1->Err_0 == v.1.last()->Err_0
        }),
{
    let pages = ps_engine::pages_between(ps@, start@, end@);
    let (states, answers) = choose|states: Seq<S>, answers: Seq<Result<bool, E>>|
        {
            &&& #[trigger] ps_engine::visits_pages(f, pages, state, states, answers)
            &&& r.0 == states.last()
            &&& r.1 == ps_engine::visit_result(answers)
        };
    (states, answers)
}

proof fn pages_are_as_many(region_id: u64, es: Seq<EntryView>)
    requires
        ps_engine_laws::indexes_rise(es),
    ensures
        ps_engine::with_entries(Pages::empty(), region_id, es).dom().finite(),
        ps_engine::with_entries(Pages::empty(), region_id, es).dom().len() == es.len(),
    decreases es.len(),
{
    if es.len() > 0 {
        let p = es.drop_last();
        let n = es.len() - 1;
        assert(forall|j: int| 0 <= j < p.len() ==> p[j] == es[j]);
        pages_are_as_many(region_id, p);
        let k = keys::spec_raft_log_key(region_id, es.last().index);
        ps_engine_laws::with_entries_keys(Pages::empty(), region_id, p, k);
        if exists|i: int|
            0 <= i < p.len() && k == keys::spec_raft_log_key(region_id, (#[trigger] p[i]).index) {
            let i = choose|i: int|
                0 <= i < p.len() && k == keys::spec_raft_log_key(region_id, (#[trigger] p[i]).index);
            assert(es[i].index < es[n].index);
            keys::raft_log_keys_rise(region_id, es[i].index, es[n].index);
        }
        let w = ps_engine::with_entries(Pages::empty(), region_id, p);
        assert(!w.contains_key(k));
        assert(w.insert(k, raft_entry::entry_bytes(es.last())).dom() =~= w.dom().insert(k));
    }
}

/// The entries of a log are counted when they are appended, and when they are copied.
pub proof fn entries_are_counted(
    engine: &PSEngine,
    ps: &mut MockPageStorage,
    region_id: u64,
    entries: &Vec<Entry>,
    n: Result<usize, EngineError>,
    source: &MockPageStorage,
    target: &mut MockPageStorage,
    c: Result<usize, EngineError>,
)
    requires
        call_ensures(PSEngine::append, (engine, ps, region_id, entries), n),
        is_log(entries@),
        call_ensures(fast_add_peer::copy_raft_log, (source, target, region_id), c),
        ps_engine_laws::indexes_rise(
            ps_engine::entries_in(ps_engine::log_pages(source@, region_id, 0, u64::MAX)),
        ),
    ensures
        n is Ok && n->Ok_0 == entries@.len(),
        c is Ok ==> c->Ok_0 == ps_engine::log_pages(source@, region_id, 0, u64::MAX).len(),
{
    let es = raft_entry::entry_views(entries@);
    assert forall|i: int, j: int| 0 <= i < j < es.len() implies (#[trigger] es[i]).index < (
    #[trigger] es[j]).index by {
        assert(entries@[i].index < entries@[j].index);
    }
    pages_are_as_many(region_id, es);
    pages_are_as_many(
        region_id,
        ps_engine::entries_in(ps_engine::log_pages(source@, region_id, 0, u64::MAX)),
    );
}

/// An entry fits exactly where its encoding takes no more bytes than 32 bits can count: a tag
/// and a byte for a kind that is not the ordinary one and for a flag that is set, a tag and the
/// number for a term and an index, and a tag, the length and the bytes for data and context,
/// each only where it is not empty.
pub proof fn entries_fit(e: &Entry, r: bool)
    requires
        call_ensures(Entry::fits, (e,), r),
    ensures
        ({
            let kind: int = if e.entry_type == EntryType::EntryNormal { 0 } else { 2 };
            let flag: int = if e.sync_log { 2 } else { 0 };
            let size = kind + flag + number_size(e.term) + number_size(e.index) + bytes_size(
                e.data@,
            ) + bytes_size(e.context@);
            r <==> size <= 0xffff_ffff
        }),
{
    sevens_are_counted(e.term as nat);
    sevens_are_counted(e.index as nat);
    if e.data@.len() <= u64::MAX {
        sevens_are_counted(e.data@.len());
    }
    if e.context@.len() <= u64::MAX {
        sevens_are_counted(e.context@.len());
    }
}

/// How many bytes a number takes, of which each holds seven of its bits.
pub open spec fn sevens(v: nat) -> nat {
    if v < 0x80 {
        1
    } else if v < 0x4000 {
        2
    } else if v < 0x20_0000 {
        3
    } else if v < 0x1000_0000 {
        4
    } else if v < 0x8_0000_0000 {
        5
    } else if v < 0x400_0000_0000 {
        6
    } else if v < 0x2_0000_0000_0000 {
        7
    } else if v < 0x100_0000_0000_0000 {
        8
    } else if v < 0x8000_0000_0000_0000 {
        9
    } else {
        10
    }
}

proof fn sevens_are_counted(v: nat)
    requires
        v <= u64::MAX,
    ensures
        raft_entry::varint_len(v) == sevens(v),
{
    reveal_with_fuel(raft_entry::varint_len, 11);
}

/// How many bytes a number takes with its tag.
pub open spec fn number_size(v: u64) -> nat {
    if v == 0 {
        0
    } else {
        1 + sevens(v as nat)
    }
}

/// How many bytes some bytes take with their tag and length.
pub open spec fn bytes_size(b: Seq<u8>) -> nat {
    if b.len() == 0 {
        0
    } else {
        1 + sevens(b.len()) + b.len()
    }
}

} // verus!
