//! Unit tests of the value types, the write and flush paths, the legacy
//! interfaces, and the metrics accumulator.

use scmstore::attrs::TreeAttributes;
use scmstore::error::StoreError;
use scmstore::fetch::FetchMode;
use scmstore::metrics::{CounterKind, TierId};
use scmstore::tiers::{AuxStore, ContentStore, IndexedLogDataStore, RemoteTreeClient, TreeAuxStore};
use scmstore::tree::{Delta, RepackLocation, StoreKey, StoreResult, TreeMetadataMode, TreeStore};
use scmstore::types::{HgId, Key, Parents, NodeInfo};
use scmstore::value::{AuxData, Entry, FileAuxData, LazyTree, Metadata, RemoteTreeEntry, StoreTree};

fn hgid(b: u8) -> HgId {
    HgId::from_byte_vec(vec![b; 20])
}

fn key(path: &str, b: u8) -> Key {
    Key::new(String::from(path), hgid(b))
}

#[test]
fn attribute_mask_operations() {
    let content = TreeAttributes::content_only();
    let parents = TreeAttributes::parents_only();
    let both = content.union(parents);
    assert_eq!(both, TreeAttributes::all());
    assert_eq!(both.intersect(content), content);
    assert_eq!(both.subtract(content), parents);
    assert!(both.contains(content));
    assert!(!content.contains(both));
    assert!(TreeAttributes::empty().is_empty());
    assert!(!content.is_empty());
}

#[test]
fn merge_keeps_left_fields_and_unions_attrs() {
    let a = StoreTree {
        content: Some(LazyTree::ContentStore(b"left".to_vec())),
        parents: None,
    };
    let b = StoreTree {
        content: Some(LazyTree::ContentStore(b"right".to_vec())),
        parents: Some(Parents::new(hgid(1), hgid(2))),
    };
    let merged = a.clone().merge(b.clone());
    // the left side's content wins; the missing parents come from the right
    assert_eq!(merged.content.as_ref().unwrap().hg_content(), &b"left".to_vec());
    assert_eq!(merged.parents.as_ref().unwrap().p1, hgid(1));
    assert_eq!(merged.attrs(), a.attrs().union(b.attrs()));
    // merging is idempotent
    let twice = merged.clone().merge(merged.clone());
    assert_eq!(twice.attrs(), merged.attrs());
    // and order-independent for which facets end up populated
    let other_order = b.merge(a);
    assert_eq!(other_order.attrs(), merged.attrs());
}

#[test]
fn mask_drops_unrequested_facets() {
    let v = StoreTree {
        content: Some(LazyTree::ContentStore(b"x".to_vec())),
        parents: Some(Parents::new(hgid(1), hgid(2))),
    };
    let masked = v.mask(TreeAttributes::content_only());
    assert!(masked.content.is_some());
    assert!(masked.parents.is_none());
}

#[test]
fn aux_data_needs_content() {
    let empty = StoreTree::empty_value();
    assert_eq!(empty.aux_data(), Err(StoreError::NoContent));
    let log_backed = StoreTree::from_content(LazyTree::ContentStore(b"x".to_vec()));
    assert_eq!(log_backed.aux_data().unwrap(), Vec::new());
    let child = hgid(9);
    let remote_backed = StoreTree::from_content(LazyTree::SaplingRemoteApi(RemoteTreeEntry {
        key: key("a", 1),
        data: b"x".to_vec(),
        parents: None,
        children: vec![(
            child.clone(),
            AuxData::File(FileAuxData { total_size: 3, content_hash: hgid(10) }),
        )],
    }));
    let aux = remote_backed.aux_data().unwrap();
    assert_eq!(aux.len(), 1);
    assert_eq!(aux[0].0, child);
}

#[test]
fn write_batch_then_local_fetch() {
    let a = key("dir/a", 4);
    let mut store = TreeStore::empty();
    store.indexedlog_local = Some(IndexedLogDataStore::new());
    store.write_batch(vec![Entry::new(a.clone(), b"written".to_vec(), Metadata::none_metadata())]);
    let got = store
        .get_local_content(String::from("dir/a"), hgid(4))
        .unwrap()
        .expect("written content is served locally");
    assert_eq!(got, b"written".to_vec());
}

#[test]
fn add_rejects_delta_with_base() {
    let mut store = TreeStore::empty();
    store.indexedlog_local = Some(IndexedLogDataStore::new());
    let r = store.add(
        Delta { data: b"d".to_vec(), base: Some(key("base", 9)), key: key("a", 1) },
        Metadata::none_metadata(),
    );
    assert_eq!(r, Err(StoreError::DeltaBaseUnsupported));
    let r = store.add(
        Delta { data: b"d".to_vec(), base: None, key: key("a", 1) },
        Metadata::none_metadata(),
    );
    assert_eq!(r, Ok(()));
}

#[test]
fn flush_is_best_effort_and_resets_metrics() {
    let mut store = TreeStore::empty();
    let mut failing = IndexedLogDataStore::new();
    failing.set_fail_flush(true);
    let mut fine = TreeAuxStore::new();
    fine.put(&hgid(1), &scmstore::value::TreeAuxData { augmented_size: 1, augmented_hash: hgid(2) });
    assert_eq!(fine.unflushed, 1);
    store.indexedlog_local = Some(failing);
    store.tree_aux_store = Some(fine);
    let report = store.flush();
    // the early failure did not stop the later tier from flushing
    assert_eq!(report.error, Some(StoreError::FlushFailed));
    assert_eq!(store.tree_aux_store.as_ref().unwrap().unflushed, 0);
    assert_eq!(report.counters.len(), 16);
    assert_eq!(report.counters[0].0, TierId::IndexedlogCache);
    assert_eq!(report.counters[0].1, CounterKind::Fetches);
    assert_eq!(store.metrics.fetch.indexedlog_cache.fetches, 0);
}

#[test]
fn metrics_count_fetch_hit_miss() {
    let a = key("a", 1);
    let b = key("b", 2);
    let mut store = TreeStore::empty();
    let mut log = IndexedLogDataStore::new();
    log.put_entry(Entry::new(a.clone(), b"aa".to_vec(), Metadata::none_metadata()));
    store.indexedlog_cache = Some(log);
    store
        .fetch_batch(vec![a, b], TreeAttributes::content_only(), FetchMode::local_only())
        .consume();
    assert_eq!(store.metrics.fetch.indexedlog_cache.fetches, 2);
    assert_eq!(store.metrics.fetch.indexedlog_cache.hits, 1);
    assert_eq!(store.metrics.fetch.indexedlog_cache.misses, 1);
}

#[test]
fn single_demands_exactly_one_outcome() {
    let mut store = TreeStore::empty();
    let none = store.fetch_batch(Vec::new(), TreeAttributes::content_only(), FetchMode::local_only());
    assert_eq!(none.single(), Err(StoreError::NotSingle));
    let two = store.fetch_batch(
        vec![key("a", 1), key("b", 2)],
        TreeAttributes::content_only(),
        FetchMode::local_only(),
    );
    assert_eq!(two.single(), Err(StoreError::NotSingle));
    let one = store.fetch_batch(
        vec![key("a", 1)],
        TreeAttributes::content_only(),
        FetchMode::local_only(),
    );
    assert_eq!(one.single(), Ok(None));
}

#[test]
fn get_and_get_meta_round_through_the_waterfall() {
    let a = key("a", 1);
    let mut store = TreeStore::empty();
    let mut log = IndexedLogDataStore::new();
    log.put_entry(Entry::new(a.clone(), b"blob".to_vec(), Metadata::none_metadata()));
    store.indexedlog_cache = Some(log);
    match store.get(StoreKey::HgId(a.clone())).unwrap() {
        StoreResult::Found(d) => assert_eq!(d, b"blob".to_vec()),
        StoreResult::NotFound(k) => panic!("unexpected miss for {:?}", k),
    }
    match store.get_meta(StoreKey::HgId(a.clone())).unwrap() {
        StoreResult::Found(m) => assert_eq!(m, Metadata::none_metadata()),
        StoreResult::NotFound(k) => panic!("unexpected miss for {:?}", k),
    }
    match store.get(StoreKey::HgId(key("z", 9))).unwrap() {
        StoreResult::NotFound(StoreKey::HgId(k)) => assert_eq!(k, key("z", 9)),
        other => panic!("unexpected result {:?}", other),
    }
    assert_eq!(store.get(StoreKey::Content(hgid(1))), Err(StoreError::NotSingle));
}

#[test]
fn get_content_errors_on_miss() {
    let mut store = TreeStore::empty();
    let r = store.get_content(String::from("a"), hgid(1), FetchMode::allow_remote());
    assert_eq!(r, Err(StoreError::KeyNotFound));
    // the sentinel hash always answers with empty content
    let r = store.get_content(String::from("a"), HgId::null_id(), FetchMode::local_only());
    assert_eq!(r, Ok(Vec::new()));
}

#[test]
fn get_missing_consults_both_logs() {
    let a = key("a", 1);
    let b = key("b", 2);
    let c = key("c", 3);
    let mut store = TreeStore::empty();
    let mut cache = IndexedLogDataStore::new();
    cache.put_entry(Entry::new(a.clone(), b"aa".to_vec(), Metadata::none_metadata()));
    let mut local = IndexedLogDataStore::new();
    local.put_entry(Entry::new(b.clone(), b"bb".to_vec(), Metadata::none_metadata()));
    store.indexedlog_cache = Some(cache);
    store.indexedlog_local = Some(local);
    let missing = store
        .get_missing(&vec![
            StoreKey::HgId(a),
            StoreKey::HgId(b),
            StoreKey::HgId(c.clone()),
            StoreKey::Content(hgid(9)),
        ])
        .unwrap();
    assert_eq!(missing, vec![StoreKey::HgId(c), StoreKey::Content(hgid(9))]);
}

#[test]
fn prefetch_reports_missing_and_upload_returns_all() {
    let a = key("a", 1);
    let b = key("b", 2);
    let mut store = TreeStore::empty();
    let mut log = IndexedLogDataStore::new();
    log.put_entry(Entry::new(a.clone(), b"aa".to_vec(), Metadata::none_metadata()));
    store.indexedlog_cache = Some(log);
    let missing = store
        .prefetch(vec![StoreKey::HgId(a.clone()), StoreKey::HgId(b.clone())])
        .unwrap();
    assert_eq!(missing, vec![StoreKey::HgId(b.clone())]);
    let uploadable = store.upload(&vec![StoreKey::HgId(a.clone())]).unwrap();
    assert_eq!(uploadable, vec![StoreKey::HgId(a)]);
}

#[test]
fn node_info_write_and_read() {
    let a = key("a", 1);
    let info = NodeInfo { parents: Parents::new(hgid(2), hgid(3)), linknode: HgId::null_id() };
    let mut store = TreeStore::empty();
    assert_eq!(store.add_node_info(&a, &info), Err(StoreError::NoLocalHistoryStore));
    store.historystore_local = Some(scmstore::tiers::IndexedLogHistoryStore::new());
    assert_eq!(store.add_node_info(&a, &info), Ok(()));
    let got = store.get_node_info(&a).unwrap().expect("recorded linkage is found");
    assert_eq!(got.parents.p1, hgid(2));
    assert_eq!(got.parents.p2, hgid(3));
}

#[test]
fn add_pending_and_commit_pending() {
    let a = key("a", 1);
    // without a legacy store, pending writes go to the chosen content log
    let mut store = TreeStore::empty();
    store.indexedlog_cache = Some(IndexedLogDataStore::new());
    store
        .add_pending(&a, b"aa".to_vec(), Metadata::none_metadata(), RepackLocation::Shared)
        .unwrap();
    assert!(store.indexedlog_cache.as_ref().unwrap().contains(&hgid(1)));
    assert_eq!(store.commit_pending(RepackLocation::Shared), Ok(None));
    // with a legacy store, they are buffered there until committed
    let mut store = TreeStore::empty().with_content_store(ContentStore::new());
    store
        .add_pending(&a, b"aa".to_vec(), Metadata::none_metadata(), RepackLocation::Local)
        .unwrap();
    assert!(!store.contentstore.as_ref().unwrap().contains(&hgid(1)));
    assert_eq!(store.commit_pending(RepackLocation::Local), Ok(None));
    assert!(store.contentstore.as_ref().unwrap().contains(&hgid(1)));
}

#[test]
fn blob_and_metadata_always_miss() {
    let store = TreeStore::empty();
    assert!(matches!(store.blob(StoreKey::Content(hgid(1))), StoreResult::NotFound(_)));
    assert!(matches!(store.metadata(StoreKey::Content(hgid(1))), StoreResult::NotFound(_)));
}

#[test]
fn teardown_flushes_when_configured() {
    let mut store = TreeStore::empty();
    let mut log = IndexedLogDataStore::new();
    log.put_entry(Entry::new(key("a", 1), b"aa".to_vec(), Metadata::none_metadata()));
    assert_eq!(log.unflushed, 1);
    store.indexedlog_local = Some(log);
    store.flush_on_drop = true;
    store.teardown();
    assert_eq!(store.indexedlog_local.as_ref().unwrap().unflushed, 0);
}

#[test]
fn child_metadata_mode_gates_aux_write_back() {
    let b = key("b", 2);
    let child = hgid(9);
    let entry = RemoteTreeEntry {
        key: b.clone(),
        data: b"bb".to_vec(),
        parents: None,
        children: vec![(
            child.clone(),
            AuxData::File(FileAuxData { total_size: 5, content_hash: hgid(10) }),
        )],
    };
    // with metadata never requested, nothing reaches the aux cache
    let mut store = TreeStore::empty();
    store.tree_metadata_mode = TreeMetadataMode::Never;
    store.aux_cache = Some(AuxStore::new());
    let mut rc = RemoteTreeClient::new();
    rc.add_entry(entry.clone());
    store.edenapi = Some(rc);
    store
        .fetch_batch(vec![b.clone()], TreeAttributes::content_only(), FetchMode::allow_remote())
        .consume();
    assert!(store.aux_cache.as_ref().unwrap().get(&child).is_none());
    // with metadata always requested, the child's metadata is cached
    let mut store = TreeStore::empty();
    store.tree_metadata_mode = TreeMetadataMode::Always;
    store.aux_cache = Some(AuxStore::new());
    let mut rc = RemoteTreeClient::new();
    rc.add_entry(entry);
    store.edenapi = Some(rc);
    store
        .fetch_batch(vec![b], TreeAttributes::content_only(), FetchMode::allow_remote())
        .consume();
    let cached = store.aux_cache.as_ref().unwrap().get(&child).expect("aux cached");
    assert_eq!(cached.total_size, 5);
}

#[test]
fn describe_names_every_error() {
    let errors = vec![
        StoreError::Network,
        StoreError::FlushFailed,
        StoreError::NotSingle,
        StoreError::NoLocalHistoryStore,
        StoreError::DeltaBaseUnsupported,
        StoreError::KeyNotFound,
        StoreError::NoContent,
    ];
    for e in errors {
        assert!(!e.describe().is_empty());
    }
}

#[test]
fn get_content_iter_maps_every_outcome() {
    let a = key("a", 1);
    let b = key("b", 2);
    let mut store = TreeStore::empty();
    let mut log = IndexedLogDataStore::new();
    log.put_entry(Entry::new(a.clone(), b"aa".to_vec(), Metadata::none_metadata()));
    store.indexedlog_cache = Some(log);
    let reads = store.get_content_iter(vec![a.clone(), b.clone()], FetchMode::local_only());
    assert_eq!(reads.len(), 2);
    assert_eq!(reads[0], Ok((a, b"aa".to_vec())));
    assert_eq!(reads[1], Err(StoreError::KeyNotFound));
}

#[test]
fn get_shared_mutable_redirects_writes_to_cache() {
    let a = key("a", 1);
    let mut store = TreeStore::empty();
    store.indexedlog_cache = Some(IndexedLogDataStore::new());
    store.edenapi = Some(RemoteTreeClient::new());
    let mut shared = store.get_shared_mutable();
    assert!(shared.indexedlog_cache.is_none());
    assert!(shared.edenapi.is_none());
    assert!(!shared.cache_to_local_cache);
    shared
        .add(Delta { data: b"aa".to_vec(), base: None, key: a }, Metadata::none_metadata())
        .unwrap();
    // the write landed in what used to be the cache log
    assert!(shared.indexedlog_local.as_ref().unwrap().contains(&hgid(1)));
}

#[test]
fn local_only_read_never_invokes_remote() {
    let a = key("a", 1);
    let mut store = TreeStore::empty();
    let mut log = IndexedLogDataStore::new();
    log.put_entry(Entry::new(a.clone(), b"aa".to_vec(), Metadata::none_metadata()));
    store.indexedlog_cache = Some(log);
    store.edenapi = Some(RemoteTreeClient::new());
    let got = store.get_local_content(String::from("a"), hgid(1)).unwrap();
    assert_eq!(got, Some(b"aa".to_vec()));
    let miss = store.get_local_content(String::from("b"), hgid(2)).unwrap();
    assert_eq!(miss, None);
    // a local-only read never touches the remote client
    assert_eq!(store.edenapi.as_ref().unwrap().calls, 0);
    assert!(store.edenapi.as_ref().unwrap().requested.is_empty());
}

#[test]
fn sentinel_read_touches_no_tier() {
    let mut store = TreeStore::empty();
    store.indexedlog_cache = Some(IndexedLogDataStore::new());
    store.indexedlog_local = Some(IndexedLogDataStore::new());
    store.edenapi = Some(RemoteTreeClient::new());
    store.contentstore = Some(ContentStore::new());
    let got = store
        .get_content(String::from("x"), HgId::null_id(), FetchMode::allow_remote())
        .unwrap();
    assert_eq!(got, Vec::<u8>::new());
    assert!(store.indexedlog_cache.as_ref().unwrap().queried_log().is_empty());
    assert!(store.indexedlog_local.as_ref().unwrap().queried_log().is_empty());
    assert_eq!(store.edenapi.as_ref().unwrap().calls, 0);
    assert!(store.contentstore.as_ref().unwrap().prefetched_log().is_empty());
}
