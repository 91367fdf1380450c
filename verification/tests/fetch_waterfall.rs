//! End-to-end tests of the fetch waterfall: tier priority, sentinel keys,
//! write-back, legacy gating, failure handling, and outcome delivery.

use scmstore::attrs::TreeAttributes;
use scmstore::error::StoreError;
use scmstore::fetch::{FetchItem, FetchMode, PendingTracker};
use scmstore::tiers::{ContentStore, IndexedLogDataStore, RemoteTreeClient};
use scmstore::tree::{should_spawn_batch, TreeStore, BATCH_SPAWN_THRESHOLD};
use scmstore::types::{HgId, Key};
use scmstore::value::{Entry, Metadata, RemoteTreeEntry, StoreTree};

fn hgid(b: u8) -> HgId {
    HgId::from_byte_vec(vec![b; 20])
}

fn key(path: &str, b: u8) -> Key {
    Key::new(String::from(path), hgid(b))
}

fn log_with(entries: Vec<(Key, Vec<u8>)>) -> IndexedLogDataStore {
    let mut log = IndexedLogDataStore::new();
    for (k, data) in entries {
        log.put_entry(Entry::new(k, data, Metadata::none_metadata()));
    }
    log
}

fn remote_with(entries: Vec<(Key, Vec<u8>)>) -> RemoteTreeClient {
    let mut rc = RemoteTreeClient::new();
    for (k, data) in entries {
        rc.add_entry(RemoteTreeEntry { key: k, data, parents: None, children: Vec::new() });
    }
    rc
}

fn content_bytes(v: &StoreTree) -> Vec<u8> {
    v.content.as_ref().expect("content requested and found").hg_content().clone()
}

/// The concrete three-key scenario: one key in the local cache log, one
/// only on the remote server, one absent everywhere, fallback disabled.
#[test]
fn three_key_scenario() {
    let a = key("a", 1);
    let b = key("b", 2);
    let c = key("c", 3);
    let mut store = TreeStore::empty();
    store.indexedlog_cache = Some(log_with(vec![(a.clone(), b"tree a".to_vec())]));
    store.edenapi = Some(remote_with(vec![(b.clone(), b"tree b".to_vec())]));
    let mode = FetchMode { local: true, remote: true, allow_legacy: false, prefetch: false };
    let results = store.fetch_batch(
        vec![a.clone(), b.clone(), c.clone()],
        TreeAttributes::content_only(),
        mode,
    );
    let items = results.into_items();
    assert_eq!(items.len(), 3);
    match &items[0] {
        FetchItem::Found(k, v) => {
            assert_eq!(*k, a);
            assert_eq!(content_bytes(v), b"tree a".to_vec());
        }
        other => panic!("key a: unexpected outcome {:?}", other),
    }
    match &items[1] {
        FetchItem::Found(k, v) => {
            assert_eq!(*k, b);
            assert_eq!(content_bytes(v), b"tree b".to_vec());
        }
        other => panic!("key b: unexpected outcome {:?}", other),
    }
    match &items[2] {
        FetchItem::NotFound(k) => assert_eq!(*k, c),
        other => panic!("key c: unexpected outcome {:?}", other),
    }
    // the remote client was invoked exactly once, and asked only for the
    // keys the local tiers had not satisfied: b, and c, whose absence only
    // the remote tier could establish
    let rc = store.edenapi.as_ref().unwrap();
    assert_eq!(rc.calls, 1);
    assert_eq!(rc.requested, vec![b.clone(), c.clone()]);
}

/// A key the cache log satisfies never reaches the local log, the remote
/// client, or the legacy store.
#[test]
fn first_hit_wins() {
    let a = key("a", 1);
    let mut store = TreeStore::empty();
    store.indexedlog_cache = Some(log_with(vec![(a.clone(), b"cached".to_vec())]));
    store.indexedlog_local = Some(log_with(vec![(a.clone(), b"local".to_vec())]));
    store.edenapi = Some(remote_with(vec![(a.clone(), b"remote".to_vec())]));
    let mut cs = ContentStore::new();
    cs.add_blob(hgid(1), b"legacy".to_vec());
    store.contentstore = Some(cs);
    let results = store.fetch_batch(
        vec![a.clone()],
        TreeAttributes::content_only(),
        FetchMode::allow_remote(),
    );
    let items = results.into_items();
    assert_eq!(items.len(), 1);
    match &items[0] {
        FetchItem::Found(k, v) => {
            assert_eq!(*k, a);
            assert_eq!(content_bytes(v), b"cached".to_vec());
        }
        other => panic!("unexpected outcome {:?}", other),
    }
    assert!(store.indexedlog_local.as_ref().unwrap().queried_log().is_empty());
    assert_eq!(store.edenapi.as_ref().unwrap().calls, 0);
    assert!(store.contentstore.as_ref().unwrap().prefetched_log().is_empty());
}

/// The sentinel key is answered with the canonical empty value and no tier
/// ever sees it.
#[test]
fn sentinel_key_bypasses_tiers() {
    let null_key = Key::new(String::from("anywhere"), HgId::null_id());
    let mut store = TreeStore::empty();
    store.indexedlog_cache = Some(log_with(vec![]));
    store.indexedlog_local = Some(log_with(vec![]));
    store.edenapi = Some(remote_with(vec![]));
    store.contentstore = Some(ContentStore::new());
    let results = store.fetch_batch(
        vec![null_key.clone()],
        TreeAttributes::all(),
        FetchMode::allow_remote(),
    );
    let items = results.into_items();
    assert_eq!(items.len(), 1);
    match &items[0] {
        FetchItem::Found(k, v) => {
            assert_eq!(*k, null_key);
            assert_eq!(content_bytes(v), Vec::<u8>::new());
        }
        other => panic!("unexpected outcome {:?}", other),
    }
    assert!(store.indexedlog_cache.as_ref().unwrap().queried_log().is_empty());
    assert!(store.indexedlog_local.as_ref().unwrap().queried_log().is_empty());
    assert_eq!(store.edenapi.as_ref().unwrap().calls, 0);
    assert!(store.contentstore.as_ref().unwrap().prefetched_log().is_empty());
}

/// A batch of distinct keys yields exactly one outcome per key, duplicates
/// collapsing onto their first occurrence.
#[test]
fn exactly_one_outcome_per_key() {
    let a = key("a", 1);
    let b = key("b", 2);
    let c = key("c", 3);
    let mut store = TreeStore::empty();
    store.indexedlog_cache = Some(log_with(vec![(b.clone(), b"bb".to_vec())]));
    let results = store.fetch_batch(
        vec![a.clone(), b.clone(), c.clone(), a.clone(), b.clone()],
        TreeAttributes::content_only(),
        FetchMode::local_only(),
    );
    let items = results.into_items();
    assert_eq!(items.len(), 3);
    let mut seen: Vec<Key> = Vec::new();
    for item in &items {
        let k = match item {
            FetchItem::Found(k, _v) => k.clone(),
            FetchItem::NotFound(k) => k.clone(),
            FetchItem::Failed(e) => panic!("unexpected failure {:?}", e),
        };
        assert!(!seen.contains(&k), "duplicate outcome for {:?}", k);
        seen.push(k);
    }
}

/// A remote hit with write-back enabled fills the cache log, so the same
/// key is then served locally without another remote call.
#[test]
fn write_back_serves_next_local_fetch() {
    let b = key("b", 2);
    let mut store = TreeStore::empty();
    store.cache_to_local_cache = true;
    store.indexedlog_cache = Some(log_with(vec![]));
    store.edenapi = Some(remote_with(vec![(b.clone(), b"tree b".to_vec())]));
    let first = store.fetch_batch(
        vec![b.clone()],
        TreeAttributes::content_only(),
        FetchMode::allow_remote(),
    );
    match &first.into_items()[0] {
        FetchItem::Found(_k, v) => assert_eq!(content_bytes(v), b"tree b".to_vec()),
        other => panic!("unexpected outcome {:?}", other),
    }
    assert_eq!(store.edenapi.as_ref().unwrap().calls, 1);
    let second = store.fetch_batch(
        vec![b.clone()],
        TreeAttributes::content_only(),
        FetchMode::local_only(),
    );
    match &second.into_items()[0] {
        FetchItem::Found(_k, v) => assert_eq!(content_bytes(v), b"tree b".to_vec()),
        other => panic!("unexpected outcome {:?}", other),
    }
    // the remote client was not consulted again
    assert_eq!(store.edenapi.as_ref().unwrap().calls, 1);
}

/// A key only the legacy store holds is not found while the fallback is
/// disabled, and found once it is enabled.
#[test]
fn legacy_fallback_gating() {
    let a = key("a", 7);
    let make_store = || {
        let mut store = TreeStore::empty();
        store.indexedlog_cache = Some(log_with(vec![]));
        let mut cs = ContentStore::new();
        cs.add_blob(hgid(7), b"old world".to_vec());
        store.contentstore = Some(cs);
        store
    };
    let mut disabled = make_store();
    let off = FetchMode { local: true, remote: true, allow_legacy: false, prefetch: false };
    let items = disabled
        .fetch_batch(vec![a.clone()], TreeAttributes::content_only(), off)
        .into_items();
    assert!(matches!(&items[0], FetchItem::NotFound(k) if *k == a));
    assert!(disabled.contentstore.as_ref().unwrap().prefetched_log().is_empty());

    let mut enabled = make_store();
    let items = enabled
        .fetch_batch(
            vec![a.clone()],
            TreeAttributes::content_only(),
            FetchMode::allow_remote(),
        )
        .into_items();
    match &items[0] {
        FetchItem::Found(k, v) => {
            assert_eq!(*k, a);
            assert_eq!(content_bytes(v), b"old world".to_vec());
        }
        other => panic!("unexpected outcome {:?}", other),
    }
    assert_eq!(enabled.contentstore.as_ref().unwrap().prefetched_log(), &vec![a.clone()]);
}

/// A broken remote client fails the whole batch with a network-class
/// error: satisfied outcomes are still delivered, then the failure, and
/// nothing is reported not found.
#[test]
fn whole_batch_network_failure() {
    let a = key("a", 1);
    let b = key("b", 2);
    let mut store = TreeStore::empty();
    store.indexedlog_cache = Some(log_with(vec![(a.clone(), b"aa".to_vec())]));
    let mut rc = remote_with(vec![(b.clone(), b"bb".to_vec())]);
    rc.set_broken(true);
    store.edenapi = Some(rc);
    let items = store
        .fetch_batch(
            vec![a.clone(), b.clone()],
            TreeAttributes::content_only(),
            FetchMode::allow_remote(),
        )
        .into_items();
    assert_eq!(items.len(), 2);
    assert!(matches!(&items[0], FetchItem::Found(k, _v) if *k == a));
    assert!(matches!(&items[1], FetchItem::Failed(StoreError::Network)));
    // the failed batch leaves the lifetime counters untouched
    assert_eq!(store.metrics.fetch.edenapi.fetches, 0);
}

/// Identical input batches produce identical outcome mappings, whether the
/// batch is small enough to run inline or large enough for the worker
/// thread path.
#[test]
fn threaded_vs_inline_equivalence() {
    let n = BATCH_SPAWN_THRESHOLD + 1;
    let mut keys: Vec<Key> = Vec::new();
    for i in 0..n {
        let mut bytes = vec![0u8; 20];
        bytes[0] = (i % 251) as u8;
        bytes[1] = (i / 251) as u8;
        bytes[19] = 1;
        keys.push(Key::new(format!("k{}", i), HgId::from_byte_vec(bytes)));
    }
    assert!(should_spawn_batch(keys.len()));
    assert!(!should_spawn_batch(1));
    let make_store = || {
        let mut store = TreeStore::empty();
        store.indexedlog_cache = Some(log_with(vec![(keys[0].clone(), b"first".to_vec())]));
        store
    };
    let mut s1 = make_store();
    let mut s2 = make_store();
    let items1 = s1
        .fetch_batch(keys.clone(), TreeAttributes::content_only(), FetchMode::local_only())
        .into_items();
    let items2 = s2
        .fetch_batch(keys.clone(), TreeAttributes::content_only(), FetchMode::local_only())
        .into_items();
    assert_eq!(items1.len(), items2.len());
    for (x, y) in items1.iter().zip(items2.iter()) {
        match (x, y) {
            (FetchItem::Found(k1, v1), FetchItem::Found(k2, v2)) => {
                assert_eq!(k1, k2);
                assert_eq!(content_bytes(v1), content_bytes(v2));
            }
            (FetchItem::NotFound(k1), FetchItem::NotFound(k2)) => assert_eq!(k1, k2),
            other => panic!("outcome mappings diverge: {:?}", other),
        }
    }
}

/// An empty requested mask is never dispatched to any tier.
#[test]
fn empty_mask_reaches_no_tier() {
    let a = key("a", 1);
    let mut store = TreeStore::empty();
    store.indexedlog_cache = Some(log_with(vec![(a.clone(), b"aa".to_vec())]));
    store.edenapi = Some(remote_with(vec![]));
    let items = store
        .fetch_batch(vec![a.clone()], TreeAttributes::empty(), FetchMode::allow_remote())
        .into_items();
    assert_eq!(items.len(), 1);
    assert!(matches!(&items[0], FetchItem::Found(k, v) if *k == a && v.content.is_none()));
    assert!(store.indexedlog_cache.as_ref().unwrap().queried_log().is_empty());
    assert_eq!(store.edenapi.as_ref().unwrap().calls, 0);
}

/// Parents come from the history tiers, and a remote fetch records them
/// back into the cache history tier.
#[test]
fn parents_waterfall_and_write_back() {
    let b = key("b", 2);
    let p1 = hgid(11);
    let p2 = hgid(12);
    let mut store = TreeStore::empty();
    store.historystore_cache = Some(scmstore::tiers::IndexedLogHistoryStore::new());
    let mut rc = RemoteTreeClient::new();
    rc.add_entry(RemoteTreeEntry {
        key: b.clone(),
        data: b"tree b".to_vec(),
        parents: Some(scmstore::types::Parents::new(p1.clone(), p2.clone())),
        children: Vec::new(),
    });
    store.edenapi = Some(rc);
    let items = store
        .fetch_batch(vec![b.clone()], TreeAttributes::parents_only(), FetchMode::allow_remote())
        .into_items();
    match &items[0] {
        FetchItem::Found(k, v) => {
            assert_eq!(*k, b);
            let parents = v.parents.as_ref().expect("parents requested and found");
            assert_eq!(parents.p1, p1);
            assert_eq!(parents.p2, p2);
        }
        other => panic!("unexpected outcome {:?}", other),
    }
    // the parents were written back to the cache history tier
    let hist = store.historystore_cache.as_mut().unwrap();
    let info = hist.get_node_info(&b).expect("written back");
    assert_eq!(info.parents.p1, p1);
    assert_eq!(info.parents.p2, p2);
}

/// The pending tracker's own interface: seeding, asking for outstanding
/// work, recording found values, and closing the batch.
#[test]
fn pending_tracker_interface() {
    let a = key("a", 1);
    let b = key("b", 2);
    let tracker = PendingTracker::new(
        &vec![a.clone(), b.clone(), a.clone()],
        TreeAttributes::all(),
    );
    assert_eq!(tracker.len(), 2);
    assert_eq!(tracker.pending_len(), 2);
    assert_eq!(tracker.requested(), TreeAttributes::all());
    let mut tracker = tracker;
    let outstanding = tracker.pending(TreeAttributes::content_only(), false);
    assert_eq!(outstanding.len(), 2);
    assert_eq!(outstanding[0].0, a);
    assert_eq!(outstanding[0].1, TreeAttributes::all());
    // a content-only answer satisfies half of the requested facets
    tracker.found(&a, StoreTree::from_content(scmstore::value::LazyTree::ContentStore(b"aa".to_vec())));
    assert_eq!(tracker.pending_len(), 2);
    let outstanding = tracker.pending(TreeAttributes::content_only(), false);
    assert_eq!(outstanding.len(), 1);
    assert_eq!(outstanding[0].0, b);
    // an unknown key is ignored
    tracker.found(&key("zz", 9), StoreTree::empty_value());
    assert_eq!(tracker.len(), 2);
    let items = tracker.into_results(None).into_items();
    assert_eq!(items.len(), 2);
    assert!(matches!(&items[0], FetchItem::NotFound(k) if *k == a));
    assert!(matches!(&items[1], FetchItem::NotFound(k) if *k == b));
}
