//! What holds of the raft log engine as a whole.

use vstd::prelude::*;

use crate::bytes;
use crate::bytes_map;
use crate::keys;
use crate::page_storage::Pages;
use crate::ps_engine;
use crate::raft_entry;
use crate::raft_entry::EntryView;

verus! {

/// The indexes of some entries rise.
pub open spec fn indexes_rise(es: Seq<EntryView>) -> bool {
    forall|i: int, j: int|
        0 <= i < j < es.len() ==> (#[trigger] es[i]).index < (#[trigger] es[j]).index
}

pub(crate) proof fn with_entries_keys(p: Pages, region_id: u64, es: Seq<EntryView>, k: Seq<u8>)
    ensures
        ps_engine::with_entries(p, region_id, es).contains_key(k) <==> p.contains_key(k) || exists|
            i: int,
        |
            0 <= i < es.len() && k == keys::spec_raft_log_key(region_id, (#[trigger] es[i]).index),
    decreases es.len(),
{
    if es.len() > 0 {
        let q = es.drop_last();
        with_entries_keys(p, region_id, q, k);
        if exists|i: int|
            0 <= i < q.len() && k == keys::spec_raft_log_key(region_id, (#[trigger] q[i]).index) {
            let i = choose|i: int|
                0 <= i < q.len() && k == keys::spec_raft_log_key(region_id, (#[trigger] q[i]).index);
            assert(es[i] == q[i]);
        }
        if exists|i: int|
            0 <= i < es.len() && k == keys::spec_raft_log_key(region_id, (#[trigger] es[i]).index) {
            let i = choose|i: int|
                0 <= i < es.len() && k == keys::spec_raft_log_key(
                    region_id,
                    (#[trigger] es[i]).index,
                );
            if i < q.len() {
                assert(q[i] == es[i]);
            }
        }
        assert(es[es.len() - 1] == es.last());
    }
}

pub(crate) proof fn with_entries_at(p: Pages, region_id: u64, es: Seq<EntryView>, i: int)
    requires
        0 <= i < es.len(),
        forall|j: int| i < j < es.len() ==> (#[trigger] es[j]).index != es[i].index,
    ensures
        ({
            let w = ps_engine::with_entries(p, region_id, es);
            let k = keys::spec_raft_log_key(region_id, es[i].index);
            w.contains_key(k) && w[k] == raft_entry::entry_bytes(es[i])
        }),
    decreases es.len(),
{
    let q = es.drop_last();
    if i < es.len() - 1 {
        assert(q[i] == es[i]);
        assert forall|j: int| i < j < q.len() implies (#[trigger] q[j]).index != q[i].index by {
            assert(q[j] == es[j]);
        }
        with_entries_at(p, region_id, q, i);
        assert(es[es.len() - 1].index != es[i].index);
        keys::raft_log_keys_rise(region_id, es.last().index, es[i].index);
    }
}

/// An entry that was stored is read back, unless a later one with its index was stored with
/// it: the page that `get_entry` reads holds it.
pub proof fn stored_entry_is_read(before: Pages, region_id: u64, es: Seq<EntryView>, i: int)
    requires
        0 <= i < es.len(),
        es[i].index != 0,
        ps_engine::round_trips(es[i]),
        forall|j: int| i < j < es.len() ==> (#[trigger] es[j]).index != es[i].index,
    ensures
        ({
            let after = before.union_prefer_right(
                ps_engine::with_entries(Pages::empty(), region_id, es),
            );
            let k = keys::spec_raft_log_key(region_id, es[i].index);
            &&& after.contains_key(k)
            &&& ps_engine::page_of(after, k).len() > 0
            &&& raft_entry::entry_of_bytes(ps_engine::page_of(after, k)) == Some(es[i])
        }),
{
    with_entries_at(Pages::empty(), region_id, es, i);
}

pub(crate) proof fn all_filled(p: Seq<(Seq<u8>, Seq<u8>)>)
    requires
        forall|i: int| 0 <= i < p.len() ==> (#[trigger] p[i]).1.len() > 0,
    ensures
        ps_engine::filled_pages(p) == Seq::new(p.len(), |i: int| p[i].1),
    decreases p.len(),
{
    if p.len() == 0 {
        assert(ps_engine::filled_pages(p) =~= Seq::new(p.len(), |i: int| p[i].1));
    } else {
        let q = p.drop_last();
        assert forall|i: int| 0 <= i < q.len() implies (#[trigger] q[i]).1.len() > 0 by {
            assert(q[i] == p[i]);
        }
        all_filled(q);
        assert(p[p.len() - 1].1.len() > 0);
        assert(ps_engine::filled_pages(p) =~= Seq::new(p.len(), |i: int| p[i].1));
    }
}

/// A log that is stored in the order of its indexes is read back whole and in that order,
/// where the storage held nothing of the region's log before.
pub proof fn stored_log_is_read(before: Pages, region_id: u64, es: Seq<EntryView>)
    requires
        indexes_rise(es),
        forall|i: int|
            0 <= i < es.len() ==> 0 < (#[trigger] es[i]).index < u64::MAX
                && ps_engine::round_trips(es[i]),
        bytes_map::range_of(
            before,
            keys::spec_raft_log_key(region_id, 0),
            keys::spec_raft_log_key(region_id, u64::MAX),
        ) == Pages::empty(),
    ensures
        ({
            let after = before.union_prefer_right(
                ps_engine::with_entries(Pages::empty(), region_id, es),
            );
            let pages = ps_engine::log_pages(after, region_id, 0, u64::MAX);
            &&& pages.len() == es.len()
            &&& forall|i: int| 0 <= i < pages.len() ==> ps_engine::is_entry(#[trigger] pages[i])
            &&& ps_engine::entries_in(pages) == es
        }),
{
    let start = keys::spec_raft_log_key(region_id, 0);
    let end = keys::spec_raft_log_key(region_id, u64::MAX);
    let w = ps_engine::with_entries(Pages::empty(), region_id, es);
    let after = before.union_prefer_right(w);
    let m = bytes_map::range_of(after, start, end);
    let p = Seq::new(
        es.len(),
        |i: int|
            (keys::spec_raft_log_key(region_id, es[i].index), raft_entry::entry_bytes(es[i])),
    );
    assert forall|i: int, j: int| 0 <= i < j < p.len() implies bytes::lex_lt(
        #[trigger] p[i].0,
        #[trigger] p[j].0,
    ) by {
        assert(es[i].index < es[j].index);
        keys::raft_log_keys_rise(region_id, es[i].index, es[j].index);
    }
    assert forall|k: Seq<u8>| #[trigger] m.contains_key(k) implies exists|i: int|
        0 <= i < p.len() && #[trigger] p[i].0 == k by {
        with_entries_keys(Pages::empty(), region_id, es, k);
        if before.contains_key(k) {
            assert(bytes_map::range_of(before, start, end).contains_key(k));
        }
        assert(w.contains_key(k));
        let i = choose|i: int|
            0 <= i < es.len() && k == keys::spec_raft_log_key(region_id, (#[trigger] es[i]).index);
        assert(p[i].0 == k);
    }
    assert forall|i: int| 0 <= i < p.len() implies m.contains_key(#[trigger] p[i].0) && m[p[i].0]
        == p[i].1 by {
        assert forall|j: int| i < j < es.len() implies (#[trigger] es[j]).index != es[i].index by {
            assert(es[i].index < es[j].index);
        }
        with_entries_at(Pages::empty(), region_id, es, i);
        assert(0 < es[i].index < u64::MAX);
        keys::raft_log_keys_rise(region_id, es[i].index, 0);
        keys::raft_log_keys_rise(region_id, es[i].index, u64::MAX);
    }
    bytes_map::map_of_is(p, m);
    bytes_map::pairs_of_is(p);
    assert forall|i: int| 0 <= i < p.len() implies (#[trigger] p[i]).1.len() > 0 by {
        assert(ps_engine::round_trips(es[i]));
        assert(0 < es[i].index);
    }
    all_filled(p);
    let pages = ps_engine::log_pages(after, region_id, 0, u64::MAX);
    assert(pages == Seq::new(p.len(), |i: int| p[i].1));
    assert forall|i: int| 0 <= i < es.len() implies raft_entry::entry_of_bytes(#[trigger] pages[i])
        == Some(es[i]) by {
        assert(ps_engine::round_trips(es[i]));
    }
    assert(ps_engine::entries_in(pages) =~= es);
}

/// Storing the log of one region leaves the pages of every other region's log alone.
pub proof fn other_logs_untouched(
    before: Pages,
    region_id: u64,
    es: Seq<EntryView>,
    other: u64,
    index: u64,
)
    requires
        other != region_id,
    ensures
        ({
            let after = before.union_prefer_right(
                ps_engine::with_entries(Pages::empty(), region_id, es),
            );
            let k = keys::spec_raft_log_key(other, index);
            &&& after.contains_key(k) == before.contains_key(k)
            &&& ps_engine::page_of(after, k) == ps_engine::page_of(before, k)
        }),
{
    let k = keys::spec_raft_log_key(other, index);
    with_entries_keys(Pages::empty(), region_id, es, k);
    assert forall|i: int| 0 <= i < es.len() implies k != keys::spec_raft_log_key(
        region_id,
        (#[trigger] es[i]).index,
    ) by {
        keys::raft_log_keys_apart(other, index, region_id, es[i].index);
    }
}

pub(crate) proof fn without_logs_at(p: Pages, region_id: u64, from: int, to: int, k: Seq<u8>)
    requires
        0 <= from,
        to <= u64::MAX + 1,
    ensures
        ({
            let w = ps_engine::without_logs(p, region_id, from, to);
            let cut = exists|x: u64|
                from <= x < to && k == #[trigger] keys::spec_raft_log_key(region_id, x);
            &&& w.contains_key(k) == (p.contains_key(k) && !cut)
            &&& w.contains_key(k) ==> w[k] == p[k]
        }),
    decreases to - from,
{
    if from < to {
        without_logs_at(p, region_id, from, to - 1, k);
        let last = keys::spec_raft_log_key(region_id, (to - 1) as u64);
        if exists|x: u64| from <= x < to && k == #[trigger] keys::spec_raft_log_key(region_id, x) {
            let x = choose|x: u64|
                from <= x < to && k == #[trigger] keys::spec_raft_log_key(region_id, x);
            if x < to - 1 {
                assert(from <= x < to - 1 && k == keys::spec_raft_log_key(region_id, x));
            } else {
                assert(x == (to - 1) as u64);
            }
        }
    }
}

/// Cutting off what was appended to a batch takes the append back, where the batch held nothing
/// of that part of the region's log before.
pub proof fn cut_undoes_append(p: Pages, region_id: u64, es: Seq<EntryView>, from: u64, to: u64)
    requires
        forall|i: int| 0 <= i < es.len() ==> from <= (#[trigger] es[i]).index < to,
        forall|x: u64|
            from <= x < to ==> !p.contains_key(#[trigger] keys::spec_raft_log_key(region_id, x)),
    ensures
        ps_engine::without_logs(
            ps_engine::with_entries(p, region_id, es),
            region_id,
            from as int,
            to as int,
        ) == p,
{
    let w = ps_engine::with_entries(p, region_id, es);
    let c = ps_engine::without_logs(w, region_id, from as int, to as int);
    assert forall|k: Seq<u8>| #![trigger c.contains_key(k)] c.contains_key(k) == p.contains_key(k)
        && (p.contains_key(k) ==> c[k] == p[k]) by {
        without_logs_at(w, region_id, from as int, to as int, k);
        with_entries_keys(p, region_id, es, k);
        if exists|i: int|
            0 <= i < es.len() && k == keys::spec_raft_log_key(region_id, (#[trigger] es[i]).index) {
            let i = choose|i: int|
                0 <= i < es.len() && k == keys::spec_raft_log_key(
                    region_id,
                    (#[trigger] es[i]).index,
                );
            assert(from <= es[i].index < to);
        } else {
            with_entries_elsewhere(p, region_id, es, k);
        }
    }
    assert forall|k: Seq<u8>| c.dom().contains(k) == p.dom().contains(k) by {
        assert(c.contains_key(k) == p.contains_key(k));
    }
    assert(c.dom() =~= p.dom());
    assert forall|k: Seq<u8>| c.dom().contains(k) implies c[k] == p[k] by {
        assert(c.contains_key(k));
    }
    assert(c =~= p);
}

proof fn with_entries_elsewhere(p: Pages, region_id: u64, es: Seq<EntryView>, k: Seq<u8>)
    requires
        forall|i: int|
            0 <= i < es.len() ==> k != keys::spec_raft_log_key(
                region_id,
                (#[trigger] es[i]).index,
            ),
    ensures
        ps_engine::with_entries(p, region_id, es)[k] == p[k],
    decreases es.len(),
{
    if es.len() > 0 {
        let q = es.drop_last();
        assert(forall|i: int| 0 <= i < q.len() ==> q[i] == es[i]);
        assert(es[es.len() - 1] == es.last());
        with_entries_elsewhere(p, region_id, q, k);
    }
}

} // verus!
