//! The parts of the library on small values.

use raftstore_proxy::bootstrap::{
    bootstrap_store, clear_prepare_bootstrap_cluster, clear_prepare_bootstrap_key, initial_region,
    is_range_empty, prepare_bootstrap_cluster, store_scan_range, BootstrapError, StoreMeta,
};
use raftstore_proxy::bytes::{compare, copy_of, less, same, same_str, Order};
use raftstore_proxy::bytes_map::{BytesMap, BytesSet};
use raftstore_proxy::cached_region::{CachedRegionInfo, CachedRegionManager};
use raftstore_proxy::cluster::{Cluster, ClusterExt, TestData, TiFlashEngine};
use raftstore_proxy::encryption::{
    ffi_encryption_method, ffi_handle_check_stopped, ffi_handle_delete_file, ffi_handle_get_file,
    ffi_handle_link_file, ffi_handle_new_file, ffi_handle_rename_file, ffi_is_encryption_enabled,
    FileEncryptionInfo, FileEncryptionRes, TiFlashRaftProxy,
};
use raftstore_proxy::engine_store::{EngineStoreServer, MockConfig};
use raftstore_proxy::ffi::{
    cf_to_name, name_to_cf, BaseBuffView, TiFlashApplyRes, WriteCmdCf, WriteCmdType, WriteCmds,
};
use raftstore_proxy::ffi_snapshot::{
    gen_snap_kv_data_from_sst, gen_snap_kv_data_view, SnapshotHelper,
};
use raftstore_proxy::hash::{hash_u64, slot_index, unhash_u64};
use raftstore_proxy::keys;
use raftstore_proxy::messages::Region;
use raftstore_proxy::resource::{CfSample, EnginesResourceInfo};
use raftstore_proxy::server_helper::{
    CppStrWithView, GetRegionApproximateSizeKeysRes, HelperError, RawCppPtr,
    RawCppPtrTypeImpl, RawPSWriteBatchWrapper, ScanSplitKeysRes, SplitKeysWithView, TiFlashServerHelper,
    TiFlashStatus, MAGIC_NUMBER, VERSION,
};
use raftstore_proxy::serverless::{
    ChangeSet, FastAddPeerExtra, Properties, ServerlessExtra, ShardSnapshot,
};
use raftstore_proxy::sst_reader::{reader_kind, FileReaderKind, SSTReader, SstData};
use raftstore_proxy::write_batch::{BatchSide, MixedWriteBatch, Rollback, WriteBatchError};

fn v(s: &str) -> Vec<u8> {
    s.as_bytes().to_vec()
}

#[test]
fn test_bootstrap() {
    let mut store = StoreMeta::new();
    let region = initial_region(1, 1, 1);
    assert_eq!(region.peers.len(), 1);
    assert_eq!((region.peers[0].store_id, region.peers[0].id), (1, 1));
    assert!(region.start_key.is_empty() && region.end_key.is_empty());
    let epoch = region.get_region_epoch();
    assert_eq!((epoch.version, epoch.conf_ver), (1, 1));

    assert_eq!(store_scan_range(), (WriteCmdCf::Default, vec![], vec![0xff]));
    let w = bootstrap_store(is_range_empty(0), store.ident.is_some(), 1, 1).unwrap();
    store.consume(&vec![w]);
    assert_eq!(store.ident.map(|i| (i.cluster_id, i.store_id)), Some((1, 1)));
    assert!(matches!(
        bootstrap_store(is_range_empty(0), store.ident.is_some(), 1, 1),
        Err(BootstrapError::NotEmpty)
    ));
    assert!(matches!(
        bootstrap_store(is_range_empty(1), false, 1, 1),
        Err(BootstrapError::NotEmpty)
    ));

    store.consume(&prepare_bootstrap_cluster(&region));
    assert!(store.prepare_bootstrap_region.is_some());
    assert!(store.region_states.get(&1).is_some());
    assert!(store.apply_states.get(&1).is_some());
    assert!(store.raft_states.get(&1).is_some());
    assert_eq!(store.apply_states[&1].applied_index, 5);
    assert_eq!(store.apply_states[&1].truncated_state.term, 5);

    store.consume(&clear_prepare_bootstrap_key());
    assert!(store.prepare_bootstrap_region.is_none());
    store.consume(&clear_prepare_bootstrap_cluster(1));
    assert!(store.region_states.is_empty());
    assert!(store.apply_states.is_empty());
    assert!(store.raft_states.is_empty());
    assert!(store.ident.is_some());
}

#[test]
fn byte_strings_are_ordered() {
    assert!(matches!(compare(b"a", b"b"), Order::Less));
    assert!(matches!(compare(b"ab", b"a"), Order::Greater));
    assert!(matches!(compare(b"", b""), Order::Equal));
    assert!(less(b"a", b"ab") && !less(b"ab", b"a") && !less(b"a", b"a"));
    assert!(less(&[0x7f], &[0x80]));
    assert!(same(b"xyz", b"xyz") && !same(b"xyz", b"xy"));
    assert_eq!(copy_of(b"xyz"), v("xyz"));
    assert!(same_str("lock", "lock") && !same_str("lock", "lok"));
}

#[test]
fn byte_maps_keep_their_keys_in_order() {
    let mut m = BytesMap::new();
    assert!(m.is_empty());
    for k in ["c", "a", "b", "a"] {
        m.insert(v(k), v("1"));
    }
    m.insert(v("b"), v("2"));
    assert_eq!(m.len(), 3);
    assert_eq!((m.key_at(0), m.key_at(1), m.key_at(2)), (&v("a"), &v("b"), &v("c")));
    assert_eq!(m.value_at(1), &v("2"));
    assert_eq!(m.get(b"b"), Some(&v("2")));
    assert_eq!(m.get(b"d"), None);
    assert_eq!(m.lower_bound(b"aa"), 1);
    assert_eq!(m.range(b"a", b"c"), vec![(v("a"), v("1")), (v("b"), v("2"))]);
    assert_eq!(m.range(b"b", b""), vec![(v("b"), v("2")), (v("c"), v("1"))]);
    assert_eq!(m.range(b"b", b"b"), vec![]);
    let mut other = BytesMap::new();
    other.insert(v("b"), v("3"));
    other.insert(v("d"), v("4"));
    let copy = m.clone();
    m.absorb(&mut other);
    assert!(other.is_empty());
    assert_eq!((m.len(), copy.len()), (4, 3));
    assert_eq!(m.get(b"b"), Some(&v("3")));
    m.remove(b"a");
    m.remove(b"z");
    assert!(!m.contains_key(b"a") && m.contains_key(b"d"));
    let taken = m.take();
    assert_eq!((m.len(), taken.len()), (0, 3));
    let mut s = BytesSet::new();
    s.insert(v("y"));
    s.insert(v("x"));
    s.insert(v("y"));
    assert_eq!(s.len(), 2);
    assert_eq!(s.at(0), &v("x"));
    s.remove(b"x");
    assert!(s.contains(b"y") && !s.contains(b"x"));
    s.clear();
    assert_eq!(s.len(), 0);
}

#[test]
fn keys_have_their_layout() {
    assert_eq!(
        keys::raft_log_key(1, 0x0203),
        vec![1, 2, 0, 0, 0, 0, 0, 0, 0, 1, 1, 0, 0, 0, 0, 0, 0, 2, 3]
    );
    assert_eq!(keys::raft_state_key(258), vec![1, 2, 0, 0, 0, 0, 0, 0, 1, 2, 2]);
    assert_eq!(keys::apply_state_key(3), vec![1, 2, 0, 0, 0, 0, 0, 0, 0, 3, 3]);
    assert_eq!(keys::region_state_key(3), vec![1, 3, 0, 0, 0, 0, 0, 0, 0, 3, 1]);
    assert_eq!(keys::store_ident_key(), vec![1, 1]);
    assert_eq!(keys::prepare_bootstrap_key(), vec![1, 2]);
    assert_eq!(keys::data_key(b"k"), v("zk"));
    assert!(keys::validate_data_key(b"zk") && !keys::validate_data_key(b"k"));
    assert!(!keys::validate_data_key(b""));
    assert_eq!(keys::origin_key(b"zk"), b"k");
}

#[test]
fn log_keys_rise_with_the_index() {
    assert!(less(&keys::raft_log_key(1, 255), &keys::raft_log_key(1, 256)));
    assert!(less(&keys::raft_log_key(1, u64::MAX), &keys::raft_log_key(2, 0)));
    assert!(!same(&keys::raft_log_key(1, 2), &keys::raft_log_key(2, 1)));
}

#[test]
fn hashing_can_be_undone() {
    assert_eq!(hash_u64(0), 0);
    assert_eq!(hash_u64(1), 0x5692161d100b05e5);
    for i in [0, 1, 2, 255, 256, 0xdead_beef, u64::MAX] {
        assert_eq!(unhash_u64(hash_u64(i)), i);
        assert_eq!(hash_u64(unhash_u64(i)), i);
        assert!(slot_index(i) < 256);
        assert_eq!(slot_index(i) as u64, hash_u64(i) % 256);
    }
}

#[test]
fn cached_regions_do_not_disturb_each_other() {
    let mut m = CachedRegionManager::new();
    for id in 0..600 {
        assert_eq!(m.get_cached_region_info(id), None);
        let info = CachedRegionInfo { snapshot_inflight: id as u128, ..Default::default() };
        m.set_cached_region_info(id, Some(info));
    }
    assert_eq!(
        m.access_cached_region_info_mut(7, |i: Option<CachedRegionInfo>| i
            .map(|x| CachedRegionInfo { inited: true, ..x })),
        Ok(())
    );
    m.remove_cached_region_info(8);
    m.set_cached_region_info(9, None);
    for id in 0..600 {
        match m.get_cached_region_info(id) {
            Some(i) => {
                assert_eq!(i.snapshot_inflight, id as u128);
                assert_eq!(i.inited, id == 7);
                assert!(!i.replicated_or_created);
                assert_eq!(i.fast_add_peer_start, 0);
            }
            None => assert!(id == 8 || id == 9),
        }
    }
}

#[test]
fn column_families_have_names_and_numbers() {
    for (i, name) in ["lock", "write", "default"].iter().enumerate() {
        let cf = WriteCmdCf::from(i);
        assert_eq!(cf_to_name(cf), *name);
        assert_eq!(name_to_cf(name), cf);
        assert_eq!(cf.into() as usize, i);
    }
    assert_eq!(name_to_cf(""), WriteCmdCf::Default);
    assert_eq!(WriteCmdType::Put.into(), 0);
    assert_eq!(WriteCmdType::Del.into(), 1);
    assert_eq!(TiFlashApplyRes::from(0), TiFlashApplyRes::NoPersist);
    assert_eq!(TiFlashApplyRes::from(1), TiFlashApplyRes::Persist);
    assert_eq!(TiFlashApplyRes::from(2), TiFlashApplyRes::NotFound);
    assert_eq!(reader_kind(WriteCmdCf::Lock), FileReaderKind::LockCfFile);
    assert_eq!(reader_kind(WriteCmdCf::Default), FileReaderKind::SstFile);
}

#[test]
fn writes_are_handed_over_in_columns() {
    let mut cmds = WriteCmds::with_capacity(2);
    cmds.push(b"k1", b"v1", WriteCmdType::Put, 2);
    cmds.push(b"k2", b"", WriteCmdType::Del, 0);
    assert_eq!(cmds.len(), 2);
    let view = cmds.gen_view();
    assert_eq!(view.len(), 2);
    assert_eq!((view.key(0), view.val(0), view.cf(0)), (&b"k1"[..], &b"v1"[..], 2));
    assert_eq!(view.cmd_type(0), WriteCmdType::Put);
    assert_eq!((view.key(1), view.val(1), view.cf(1)), (&b"k2"[..], &b""[..], 0));
    assert_eq!(view.cmd_type(1), WriteCmdType::Del);
    assert_eq!(WriteCmds::new().len(), 0);
    let b = BaseBuffView::from(b"xy");
    assert_eq!((b.len(), b.is_null(), b.to_slice()), (2, false, &b"xy"[..]));
    assert!(BaseBuffView::default().is_null());
    assert_eq!(BaseBuffView::default().len(), 0);
}

/// Makes pointers as the engine store does for strings.
fn gen_cpp_strings(strings: &[String]) -> Vec<RawCppPtr> {
    let mut v = vec![];
    for s in strings {
        v.push(RawCppPtr::new(s.as_ptr() as usize, RawCppPtrTypeImpl::String.into()));
    }
    v
}

#[test]
fn test_tuple_of_raw_cpp_ptr() {
    let len = 10;
    let strings: Vec<String> = (0..len).map(|i| format!("s{}", i)).collect();
    let mut v = gen_cpp_strings(&strings);
    assert_ne!(v.len(), v.capacity());
    let mut released = vec![];
    for p in v.iter_mut() {
        assert!(!p.is_null());
        // A pointer is handed back once.
        released.push(p.release().unwrap().raw_address());
        assert!(p.release().is_none());
        assert!(p.is_null());
    }
    let want: Vec<usize> = strings.iter().map(|s| s.as_ptr() as usize).collect();
    assert_eq!(released, want);
}

#[test]
fn test_array_of_raw_cpp_ptr() {
    let len = 10;
    let strings: Vec<String> = (0..len).map(|i| format!("s{}", i)).collect();
    let mut v: Vec<usize> = vec![];
    for p in gen_cpp_strings(&strings) {
        assert_eq!(p.get_type(), RawCppPtrTypeImpl::String.into());
        v.push(p.into_raw());
    }
    assert_ne!(v.len(), v.capacity());
    let want: Vec<usize> = strings.iter().map(|s| s.as_ptr() as usize).collect();
    assert_eq!(v, want);
}

#[test]
fn test_carray_of_raw_cpp_ptr() {
    const LEN: usize = 10;
    let strings: Vec<String> = (0..LEN).map(|i| format!("s{}", i)).collect();
    let mut taken: Vec<RawPSWriteBatchWrapper> = vec![];
    for mut p in gen_cpp_strings(&strings) {
        taken.push(RawPSWriteBatchWrapper::from(&mut p));
        // What was taken over is not handed back by the former owner.
        assert!(p.release().is_none());
    }
    assert_eq!(taken.len(), LEN);
    for (t, s) in taken.iter().zip(&strings) {
        assert_eq!((t.ptr, t.type_), (s.as_ptr() as usize, RawCppPtrTypeImpl::String.into()));
    }
}

#[test]
fn pointer_kinds_have_numbers() {
    assert_eq!(RawCppPtrTypeImpl::from(0), RawCppPtrTypeImpl::Null);
    for i in 0..4 {
        assert_eq!(RawCppPtrTypeImpl::from(i).into(), i);
    }
    let none = CppStrWithView::new(RawCppPtr::new(0, 0), BaseBuffView::default());
    assert!(none.is_none());
    let some = CppStrWithView::new(RawCppPtr::new(8, 1), BaseBuffView::from(b"x"));
    assert!(!some.is_none());
}

#[test]
fn the_engine_store_is_checked() {
    let good = TiFlashServerHelper { magic_number: MAGIC_NUMBER, version: VERSION, inner: 1 };
    assert_eq!(good.check(), Ok(()));
    let bad = TiFlashServerHelper { magic_number: 1, ..good };
    assert_eq!(bad.check(), Err(HelperError::MagicNumber { expect: MAGIC_NUMBER, got: 1 }));
    let bad = TiFlashServerHelper { version: VERSION + 1, ..good };
    assert_eq!(bad.check(), Err(HelperError::Version { expect: VERSION, got: VERSION + 1 }));

    let keys = SplitKeysWithView::new(
        RawCppPtr::new(1, 1),
        vec![BaseBuffView::from(b"k1"), BaseBuffView::from(b"k2")],
    );
    let res = ScanSplitKeysRes { ok: 1, size: 10, keys: 2, split_keys: keys };
    assert_eq!(good.scan_split_keys(7, res), Ok((10, 2, vec![v("k1"), v("k2")])));
    let none = SplitKeysWithView::new(RawCppPtr::new(0, 0), vec![]);
    let res = ScanSplitKeysRes { ok: 0, size: 10, keys: 2, split_keys: none };
    assert_eq!(good.scan_split_keys(7, res), Err(HelperError::ScanSplitKeys { region_id: 7 }));
    let mut region = Region::default();
    region.id = 7;
    let res = GetRegionApproximateSizeKeysRes { ok: 1, size: 5, keys: 6 };
    assert_eq!(good.get_region_approximate_size_keys_of_tiflash(&region, res), Ok((5, 6)));
    let res = GetRegionApproximateSizeKeysRes { ok: 0, size: 5, keys: 6 };
    assert_eq!(
        good.get_region_approximate_size_keys_of_tiflash(&region, res),
        Err(HelperError::ApproximateSizeKeys { region_id: 7 })
    );
    assert_eq!(good.handle_get_tiflash_status(0), TiFlashStatus::IDLE);
    assert_eq!(good.handle_get_tiflash_status(1), TiFlashStatus::Running);
    assert_eq!(good.handle_get_tiflash_status(2), TiFlashStatus::Stopped);
    assert!(good.is_tiflash_snapshot(1) && !good.is_tiflash_snapshot(0));
    assert!(good.handle_check_terminated(1) && !good.handle_check_terminated(0));
    assert_eq!(good.handle_write_raft_cmd(1), TiFlashApplyRes::Persist);
    assert_eq!(good.handle_admin_raft_cmd(2), TiFlashApplyRes::NotFound);
    assert_eq!(good.handle_ingest_sst(0), TiFlashApplyRes::NoPersist);
}

#[test]
fn encrypted_files_are_told() {
    let r = ffi_handle_get_file(None);
    assert_eq!((r.res, r.method), (FileEncryptionRes::Disabled.into(), 0));
    assert!(r.key.is_none() && r.iv.is_none() && r.erro_msg.is_none());
    let f = FileEncryptionInfo { method: 3, key: v("key"), iv: v("iv") };
    let r = ffi_handle_new_file(Some(Ok(f)));
    assert_eq!((r.res, r.method), (FileEncryptionRes::Found.into(), 3));
    assert_eq!((r.key, r.iv, r.erro_msg), (Some(v("key")), Some(v("iv")), None));
    let r = ffi_handle_get_file(Some(Err("gone".to_string())));
    assert_eq!(r.res, FileEncryptionRes::Error.into());
    assert_eq!(r.erro_msg.unwrap(), "Encryption key manager get file failure: gone");
    let r = ffi_handle_new_file(Some(Err("gone".to_string())));
    assert_eq!(r.erro_msg.unwrap(), "Encryption key manager new file failure: gone");
    let r = ffi_handle_delete_file(Some(Err("gone".to_string())));
    assert_eq!(r.erro_msg.unwrap(), "Encryption key manager delete file failure: gone");
    let r = ffi_handle_link_file(Some(Err("gone".to_string())));
    assert_eq!(r.erro_msg.unwrap(), "Encryption key manager link file failure: gone");
    let r = ffi_handle_rename_file(Some(Err("gone".to_string())));
    assert_eq!(r.erro_msg.unwrap(), "Encryption key manager rename file failure: gone");
    assert_eq!(ffi_handle_rename_file(Some(Ok(()))).res, FileEncryptionRes::Found.into());
    let p = TiFlashRaftProxy { stopped: false, key_manager: None };
    assert_eq!(
        (ffi_handle_check_stopped(&p), ffi_is_encryption_enabled(&p), ffi_encryption_method(&p)),
        (0, 0, 1)
    );
    let p = TiFlashRaftProxy { stopped: true, key_manager: Some(4) };
    assert_eq!(
        (ffi_handle_check_stopped(&p), ffi_is_encryption_enabled(&p), ffi_encryption_method(&p)),
        (1, 1, 4)
    );
}

#[test]
fn snapshots_are_handed_over_by_column_family() {
    let pairs = vec![(v("zk1"), v("v1")), (v("zk2"), v("v2"))];
    let snap = gen_snap_kv_data_from_sst(&pairs);
    assert_eq!(snap.len(), 2);
    assert_eq!(snap[1], (v("k2"), v("v2")));
    let (keys, vals) = gen_snap_kv_data_view(&snap);
    assert_eq!((keys[0].to_slice(), vals[0].to_slice()), (&b"k1"[..], &b"v1"[..]));
    let mut helper = SnapshotHelper::new();
    assert!(helper.empty());
    helper.add_cf_snap(WriteCmdCf::Write, snap.clone());
    helper.add_cf_snap(WriteCmdCf::Lock, gen_snap_kv_data_from_sst(&vec![]));
    assert!(!helper.empty());
    let views = helper.gen_snapshot_view();
    assert_eq!(views.len(), 2);
    assert_eq!((views[0].cf, views[0].len), (1, 2));
    assert_eq!(views[0].keys[1].to_slice(), b"k2");
    assert_eq!(views[0].vals[1].to_slice(), b"v2");
    assert_eq!((views[1].cf, views[1].len), (0, 0));
}

#[test]
fn files_are_read_in_order() {
    let data = SstData { type_: WriteCmdCf::Write, kvs: vec![(v("a"), v("1")), (v("b"), v("2"))] };
    let mut r = SSTReader::new(&data);
    let mut seen = vec![];
    while r.remained() {
        seen.push((r.key().to_slice().to_vec(), r.value().to_slice().to_vec()));
        r.next();
    }
    assert_eq!(seen, data.kvs);
}

#[test]
fn serverless_extras_are_put_in() {
    let extra = FastAddPeerExtra {
        shard_ver: 9,
        inner_key: BaseBuffView::from(&[0, 0, 1, 2, 7]),
        enc_key: BaseBuffView::from(b"enc"),
        txn_file_ref: BaseBuffView::from(b"txn"),
    };
    let e = ServerlessExtra::new(&extra);
    assert_eq!(e.get_inner_key_off(), 258);
    let mut change = ChangeSet {
        shard_ver: 0,
        snapshot: ShardSnapshot {
            properties: Properties { shard_id: 0, encryption_key: vec![], txn_file_ref: vec![] },
            inner_key_off: 0,
        },
    };
    e.mutate_snap(5, &mut change);
    assert_eq!((change.shard_ver, change.snapshot.inner_key_off), (9, 258));
    assert_eq!(change.snapshot.properties.shard_id, 5);
    assert_eq!(change.snapshot.properties.encryption_key, v("enc"));
    assert_eq!(change.snapshot.properties.txn_file_ref, v("txn"));
    assert_eq!((e.get_shard_ver(), e.get_enc_key(), e.get_txn_file_ref()), (9, &b"enc"[..], &b"txn"[..]));
    let short = FastAddPeerExtra { inner_key: BaseBuffView::from(&[1, 2, 3]), ..extra };
    assert_eq!(ServerlessExtra::new(&short).get_inner_key_off(), 0);
}

#[test]
fn engines_that_are_behind() {
    let s = |pending, soft_limit| CfSample { pending, soft_limit };
    let none = s(None, None);
    let mut info = EnginesResourceInfo::new(true);
    let n = info.normalized_pending_bytes(
        &s(Some(50), Some(200)),
        &s(Some(30), Some(100)),
        &s(Some(9), Some(0)),
        &s(Some(9), None),
    );
    assert_eq!(n, 30);
    assert_eq!(info.normalized_pending_bytes(&s(Some(7), Some(2)), &none, &none, &none), 350);
    let kv_only = EnginesResourceInfo::new(false);
    assert_eq!(kv_only.normalized_pending_bytes(&s(Some(7), Some(2)), &none, &none, &none), 0);
    info.update(30, 40);
    assert_eq!(info.latest_normalized_pending_bytes, 40);
    info.update(50, 40);
    assert_eq!(info.latest_normalized_pending_bytes, 50);
}

#[test]
fn a_rollback_undoes_what_came_after_its_save_point() {
    let mut wb = MixedWriteBatch::new(BatchSide::PageStorage);
    assert!(!wb.should_write_to_engine());
    assert_eq!(wb.pop_save_point(), Err(WriteBatchError::NoSavePoint));
    assert_eq!(wb.rollback_to_save_point(), Err(WriteBatchError::NoSavePoint));
    assert_eq!(wb.set_save_point(), 0);
    wb.index = 3;
    assert_eq!(wb.set_save_point(), 3);
    assert_eq!(wb.pop_save_point(), Ok(3));
    assert_eq!(wb.rollback_to_save_point(), Ok(Rollback { batch: 0, clear_up_to: 3 }));
    assert_eq!(wb.index, 0);
    assert!(wb.save_points.is_empty());
    assert_eq!(wb.put_cf(true), Some(BatchSide::PageStorage));
    assert_eq!(wb.put_cf(false), None);
    assert_eq!(wb.delete_cf(true), Some(BatchSide::PageStorage));
    assert_eq!(wb.delete_range_cf(), None);
    assert_eq!(wb.merge(&MixedWriteBatch::new(BatchSide::PageStorage)), BatchSide::PageStorage);
}

#[test]
fn engine_stores_are_registered_in_the_order_of_their_nodes() {
    let mut c = Cluster { engines: Default::default(), cluster_ext: ClusterExt::new() };
    let cfg = MockConfig { panic_when_flush_no_found: false };
    for (i, id) in [7, 3, 5].iter().enumerate() {
        let rocks = 100 + *id as usize;
        c.engines.insert(*id, TiFlashEngine { engine_store_server_helper: 1, rocks });
        c.create_ffi_helper_set(11, 20 + i as isize, 1, true, cfg);
    }
    assert_eq!(c.node_ids(), vec![3, 5, 7]);
    assert_eq!(c.helper_ids(None), vec![3, 5, 7]);
    assert_eq!(c.helper_ids(Some(vec![7, 3, 7])), vec![7, 3, 7]);
    assert!(c.helper_ids(Some(vec![])).is_empty());
    c.bootstrap_ffi_helper_set();
    assert!(c.cluster_ext.ffi_helper_lst.is_empty());
    for (i, id) in [3, 5, 7].iter().enumerate() {
        let set = &c.cluster_ext.ffi_helper_set[id];
        assert_eq!(set.engine_store_server_helper_ptr, 20 + i as isize);
        assert_eq!(set.engine_store_server_wrap.engine_store_server.id, *id);
        assert!(set.engine_store_server_wrap.engine_store_server.proxy_compat);
        assert_eq!(c.get_raw_engine(*id), 100 + *id as usize);
        let engine = c.get_tiflash_engine(*id);
        let stats = engine.get_store_stats(&set.engine_store_server_wrap);
        assert_eq!(stats.fs_stats.capacity_size, 444444);
    }
    c.set_expected_safe_ts(4, 3);
    assert_eq!(
        c.cluster_ext.test_data,
        TestData { expected_leader_safe_ts: 4, expected_self_safe_ts: 3 }
    );
    assert!(c.safe_ts_as_expected(3, 4) && !c.safe_ts_as_expected(4, 3));
    assert!(EngineStoreServer::new(9, false).region_ids().is_empty());
}
