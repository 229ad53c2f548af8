//! The raft log engine on the page storage.

use raftstore_proxy::fast_add_peer::copy_raft_log;
use raftstore_proxy::ffi::BaseBuffView;
use raftstore_proxy::keys;
use raftstore_proxy::page_storage::{MockPSUniversalPage, MockPSWriteBatch, MockPageStorage};
use raftstore_proxy::ps_engine::{EngineError, PSEngine, PSEngineWriteBatch, RaftLogGCTask};
use raftstore_proxy::raft_entry::{Entry, EntryType};

fn entry(index: u64, data: &str) -> Entry {
    Entry {
        entry_type: EntryType::EntryNormal,
        term: 5,
        index,
        data: data.as_bytes().to_vec(),
        context: vec![],
        sync_log: false,
    }
}

fn same(a: &Entry, b: &Entry) -> bool {
    a.entry_type == b.entry_type
        && a.term == b.term
        && a.index == b.index
        && a.data == b.data
        && a.context == b.context
        && a.sync_log == b.sync_log
}

/// All entries of a log that a visitor is shown.
fn all_entries(e: &PSEngine, ps: &MockPageStorage, region_id: u64) -> Vec<Entry> {
    let (seen, res) = e.scan_entries(ps, region_id, vec![], |mut s: Vec<Entry>, x: &Entry| {
        s.push(x.clone());
        (s, Ok::<bool, u8>(true))
    });
    assert_eq!(res, Ok(()));
    seen
}

#[test]
fn an_entry_takes_its_bytes() {
    let (e, mut ps) = (PSEngine::new(), MockPageStorage::new());
    assert_eq!(e.append(&mut ps, 1, &vec![entry(6, "v")]), Ok(1));
    let page = e.get_value(&ps, &keys::raft_log_key(1, 6)).unwrap();
    assert_eq!(page, vec![0x10, 5, 0x18, 6, 0x22, 1, b'v']);
}

#[test]
fn stored_entries_are_read_back() {
    let (mut e, mut ps) = (PSEngine::new(), MockPageStorage::new());
    e.init(42);
    assert_eq!(e.engine_store_server_helper, 42);
    let odd = Entry {
        entry_type: EntryType::EntryConfChangeV2,
        term: u64::MAX,
        index: 300,
        data: vec![0, 255],
        context: vec![1, 2, 3],
        sync_log: true,
    };
    let conf = Entry { entry_type: EntryType::EntryConfChange, ..entry(301, "") };
    assert_eq!(e.append(&mut ps, 1, &vec![entry(6, "a"), odd.clone(), conf.clone()]), Ok(3));
    assert!(odd.fits() && conf.fits());
    // Kind 2, term 11, index 3, data 4, context 5 and flag 2.
    assert_eq!(e.get_value(&ps, &keys::raft_log_key(1, 300)).unwrap().len(), 27);
    // A field that holds nothing takes no bytes.
    assert_eq!(e.get_value(&ps, &keys::raft_log_key(1, 301)).unwrap().len(), 2 + 2 + 3);
    let long = entry(128, &"x".repeat(128));
    assert_eq!(e.append(&mut ps, 9, &vec![long]), Ok(1));
    let page = e.get_value(&ps, &keys::raft_log_key(9, 128)).unwrap();
    assert_eq!(page.len(), 2 + 3 + (1 + 2 + 128));
    assert!(same(&e.get_entry(&ps, 1, 300).unwrap().unwrap(), &odd));
    assert!(same(&e.get_entry(&ps, 1, 301).unwrap().unwrap(), &conf));
    assert!(e.get_entry(&ps, 1, 7).unwrap().is_none());
    assert!(e.get_entry(&ps, 2, 6).unwrap().is_none());
    // A later entry with the same index stands.
    assert_eq!(e.append(&mut ps, 1, &vec![entry(6, "b"), entry(6, "c")]), Ok(1));
    assert!(same(&e.get_entry(&ps, 1, 6).unwrap().unwrap(), &entry(6, "c")));
    assert_eq!(e.append(&mut ps, 1, &vec![]), Ok(0));
}

#[test]
fn a_log_is_read_in_the_order_of_its_indexes() {
    let (e, mut ps) = (PSEngine::new(), MockPageStorage::new());
    let log: Vec<Entry> = (250..260).map(|i| entry(i, "data")).collect();
    assert_eq!(e.append(&mut ps, 1, &log), Ok(10));
    assert_eq!(e.append(&mut ps, 2, &vec![entry(255, "other")]), Ok(1));
    let mut buf = vec![];
    assert_eq!(e.get_all_entries_to(&ps, 1, &mut buf), Ok(()));
    assert_eq!(buf.iter().map(|e| e.index).collect::<Vec<_>>(), (250..260).collect::<Vec<_>>());
    assert_eq!(all_entries(&e, &ps, 1).len(), 10);
    let mut buf = vec![entry(1, "")];
    // The count is one more than the entries that were read.
    assert_eq!(e.fetch_entries_to(&ps, 1, 252, 256, None, &mut buf), Ok(5));
    assert_eq!(buf.iter().map(|e| e.index).collect::<Vec<_>>(), vec![1, 252, 253, 254, 255]);
    // Reading stops once the limit is reached; an entry takes 11 bytes.
    let mut buf = vec![];
    assert_eq!(e.fetch_entries_to(&ps, 1, 252, 256, Some(12), &mut buf), Ok(3));
    assert_eq!(buf.len(), 2);
    let mut buf = vec![];
    assert_eq!(e.fetch_entries_to(&ps, 1, 252, 256, Some(0), &mut buf), Ok(2));
    assert_eq!(e.fetch_entries_to(&ps, 1, 252, 252, None, &mut buf), Ok(1));
    // The log of another region is not touched.
    assert_eq!(e.get_entry(&ps, 2, 255).unwrap().unwrap().data, b"other".to_vec());
}

#[test]
fn a_page_that_holds_no_entry_is_an_error() {
    let (e, mut ps) = (PSEngine::new(), MockPageStorage::new());
    assert_eq!(e.append(&mut ps, 1, &vec![entry(6, "a"), entry(8, "b")]), Ok(2));
    let mut wb = e.log_batch();
    assert_eq!(wb.put_page(&keys::raft_log_key(1, 7), &[0x22, 5, 1]), Ok(()));
    assert_eq!(e.consume(&mut ps, &mut wb), Ok(1));
    assert!(matches!(e.get_entry(&ps, 1, 7), Err(EngineError::Codec)));
    let mut buf = vec![];
    assert_eq!(e.get_all_entries_to(&ps, 1, &mut buf), Err(EngineError::Codec));
    assert_eq!(buf.len(), 1);
    let mut buf = vec![];
    assert_eq!(e.fetch_entries_to(&ps, 1, 6, 9, None, &mut buf), Err(EngineError::Codec));
    assert_eq!(buf.len(), 1);
    assert_eq!(all_entries(&e, &ps, 1).len(), 1);
    // An empty page counts as none.
    let mut wb = e.log_batch();
    assert_eq!(wb.put_page(&keys::raft_log_key(1, 7), &[]), Ok(()));
    assert_eq!(e.consume_and_shrink(&mut ps, &mut wb), Ok(1));
    assert!(e.get_entry(&ps, 1, 7).unwrap().is_none());
    assert_eq!(all_entries(&e, &ps, 1).len(), 2);
}

#[test]
fn batches_are_stored_and_emptied() {
    let (e, mut ps) = (PSEngine::new(), MockPageStorage::new());
    assert_eq!(ps.ps_is_empty(), 1);
    let mut wb = PSEngineWriteBatch::new(3);
    assert_eq!(wb.engine_store_server_helper, 3);
    // The batch says that it is empty where it is not.
    assert!(!wb.is_empty());
    assert_eq!(wb.append(1, &vec![entry(5, "a"), entry(6, "b"), entry(7, "c")]), Ok(()));
    assert_eq!(wb.put_raft_state(1, b"state"), Ok(()));
    assert!(wb.is_empty());
    assert_eq!((wb.data_size(), wb.persist_size()), (4, 4));
    wb.cut_logs(1, 6, 8);
    assert_eq!(wb.data_size(), 2);
    let mut other = PSEngineWriteBatch::new(3);
    assert_eq!(other.put_raft_state(1, b"newer"), Ok(()));
    assert_eq!(wb.merge(other), Ok(()));
    assert_eq!(wb.data_size(), 2);
    assert_eq!(e.consume(&mut ps, &mut wb), Ok(2));
    assert_eq!(wb.data_size(), 0);
    assert_eq!(ps.ps_is_empty(), 0);
    assert_eq!(e.get_raft_state(&ps, 1), Some(b"newer".to_vec()));
    assert_eq!(e.get_raft_state(&ps, 2), None);
    assert_eq!(e.put_raft_state(&mut ps, 2, b"two"), Ok(()));
    assert_eq!(e.get_raft_state(&ps, 2), Some(b"two".to_vec()));
    // A clean takes the pages out of the batch; what is stored stays.
    assert_eq!(wb.append(1, &vec![entry(5, "x"), entry(9, "y")]), Ok(()));
    assert_eq!(e.clean(&mut ps, 1, 5, 8, &mut wb), Ok(()));
    assert_eq!(e.get_entry(&ps, 1, 5).unwrap().unwrap().data, b"a".to_vec());
    assert_eq!(e.get_entry(&ps, 1, 9).unwrap().unwrap().data, b"y".to_vec());
    assert_eq!(e.get_raft_state(&ps, 1), Some(b"newer".to_vec()));
}

#[test]
fn dropping_entries_counts_them() {
    let (e, mut ps) = (PSEngine::new(), MockPageStorage::new());
    assert_eq!(e.append(&mut ps, 1, &vec![entry(5, "a")]), Ok(1));
    assert_eq!(e.gc(&mut ps, 1, 7, 5), Ok(2));
    assert_eq!(e.gc(&mut ps, 1, 5, 7), Ok(2u64.wrapping_neg() as usize));
    let tasks = vec![
        RaftLogGCTask { raft_group_id: 1, from: 5, to: 8 },
        RaftLogGCTask { raft_group_id: 2, from: 1, to: 3 },
    ];
    assert_eq!(e.batch_gc(&mut ps, &tasks), Ok(5));
    assert!(e.get_entry(&ps, 1, 5).unwrap().is_some());
    assert_eq!(e.sync(), Ok(()));
    assert_eq!(e.purge_expired_files(), Ok(vec![]));
    assert!(!e.has_builtin_entry_cache());
    assert_eq!(e.dump_stats(), Ok(String::new()));
    assert_eq!(e.get_engine_size(), Ok(0));
}

#[test]
fn pages_are_scanned_in_order() {
    let mut ps = MockPageStorage::new();
    let mut wb = MockPSWriteBatch::create_write_batch();
    assert_eq!((wb.size(), wb.is_empty()), (0, 1));
    for k in ["b", "a", "d", "c"] {
        wb.put_page(BaseBuffView::from(k.as_bytes()), BaseBuffView::from(b"p"));
    }
    wb.del_page(BaseBuffView::from(b"d"));
    assert_eq!((wb.size(), wb.is_empty()), (3, 0));
    let mut more = MockPSWriteBatch::default();
    more.put_page(BaseBuffView::from(b"c"), BaseBuffView::from(b"q"));
    wb.merge(&mut more);
    assert_eq!((wb.size(), more.size()), (3, 0));
    ps.consume_write_batch(&mut wb);
    assert_eq!(wb.size(), 0);
    assert!(ps.has_page(b"c") && !ps.has_page(b"d"));
    assert_eq!(ps.handle_read_page(BaseBuffView::from(b"c")), b"q".to_vec());
    let keys = |from: &str, to: &str| -> Vec<Vec<u8>> {
        ps.handle_scan_page(BaseBuffView::from(from.as_bytes()), BaseBuffView::from(to.as_bytes()))
            .into_iter()
            .map(|p| p.0)
            .collect()
    };
    assert_eq!(keys("a", "c"), vec![b"a".to_vec(), b"b".to_vec()]);
    assert_eq!(keys("b", ""), vec![b"b".to_vec(), b"c".to_vec()]);
    assert_eq!(MockPSUniversalPage::from(BaseBuffView::from(b"x")).data, b"x".to_vec());
}

#[test]
fn a_visitor_ends_its_visit() {
    let (e, mut ps) = (PSEngine::new(), MockPageStorage::new());
    let mut wb = e.log_batch();
    for (k, v) in [("a", "1"), ("b", ""), ("c", "2"), ("d", "3"), ("e", "4")] {
        assert_eq!(wb.put_page(k.as_bytes(), v.as_bytes()), Ok(()));
    }
    assert_eq!(e.consume(&mut ps, &mut wb), Ok(5));
    // It is shown the pages that are not empty, without their keys, until it has enough.
    let visit = |from: &str, to: &str, last: &str, answer: Result<bool, u8>| {
        let last = last.as_bytes().to_vec();
        let f = move |mut s: Vec<Vec<u8>>, k: &[u8], v: &[u8]| {
            assert!(k.is_empty());
            s.push(v.to_vec());
            if v.to_vec() == last {
                (s, answer)
            } else {
                (s, Ok(true))
            }
        };
        e.scan(&ps, from.as_bytes(), to.as_bytes(), vec![], f)
    };
    let pages = |n: u8| (1..n + 1).map(|i| vec![b'0' + i]).collect::<Vec<_>>();
    assert_eq!(visit("", "", "", Ok(false)), (pages(4), Ok(())));
    assert_eq!(visit("a", "e", "", Ok(false)), (pages(3), Ok(())));
    assert_eq!(visit("b", "d", "", Ok(false)), (vec![b"2".to_vec()], Ok(())));
    assert_eq!(visit("", "", "2", Ok(false)), (pages(2), Ok(())));
    assert_eq!(visit("", "", "3", Err(7)), (pages(3), Err(7)));
    assert_eq!(visit("", "", "4", Err(7)), (pages(4), Err(7)));
    assert_eq!(visit("f", "", "4", Err(7)), (pages(0), Ok(())));
    // A visitor of entries ends its visit in the same way; no error comes out.
    let log: Vec<Entry> = (5..9).map(|i| entry(i, "data")).collect();
    assert_eq!(e.append(&mut ps, 1, &log), Ok(4));
    for answer in [Ok(false), Err(7u8)] {
        let (seen, res) = e.scan_entries(&ps, 1, vec![], |mut s: Vec<u64>, x: &Entry| {
            s.push(x.index);
            (s, if x.index == 6 { answer } else { Ok(true) })
        });
        assert_eq!((seen, res), (vec![5, 6], Ok(())));
    }
}

#[test]
fn a_copied_log_is_read_like_its_source() {
    let (e, mut source) = (PSEngine::new(), MockPageStorage::new());
    let mut target = MockPageStorage::new();
    let log: Vec<Entry> = (5..9).map(|i| entry(i, "data")).collect();
    assert_eq!(e.append(&mut source, 1, &log), Ok(4));
    assert_eq!(e.append(&mut source, 2, &log), Ok(4));
    assert_eq!(copy_raft_log(&source, &mut target, 1), Ok(4));
    assert_eq!(copy_raft_log(&source, &mut target, 3), Ok(0));
    let copied = all_entries(&e, &target, 1);
    assert_eq!(copied.len(), 4);
    assert!(copied.iter().zip(&log).all(|(a, b)| same(a, b)));
    assert!(all_entries(&e, &target, 2).is_empty());
    // A page that holds no entry leaves the target as it was.
    let mut wb = e.log_batch();
    assert_eq!(wb.put_page(&keys::raft_log_key(2, 7), &[0x22, 5, 1]), Ok(()));
    assert_eq!(e.consume(&mut source, &mut wb), Ok(1));
    assert_eq!(copy_raft_log(&source, &mut target, 2), Err(EngineError::Codec));
    assert!(all_entries(&e, &target, 2).is_empty());
    assert!(log[0].fits());
}

#[test]
fn cutting_off_undoes_an_append() {
    let mut wb = PSEngineWriteBatch::new(0);
    assert_eq!(wb.put_raft_state(1, b"s"), Ok(()));
    assert_eq!(wb.append(1, &vec![entry(5, "a"), entry(6, "b")]), Ok(()));
    wb.cut_logs(1, 5, 7);
    assert_eq!(wb.data_size(), 1);
    wb.clear();
    assert_eq!(wb.data_size(), 0);
}
