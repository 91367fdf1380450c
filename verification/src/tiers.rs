//! In-memory models of the backing storage tiers.
//!
//! Each tier keeps its records in insertion order, is looked up by content
//! hash, and records the keys it was asked for, so that callers and tests
//! can hold the orchestrator to its promise of never querying a tier it did
//! not need. Writes of a key already present are dropped: re-writing the
//! same content is idempotent.

use vstd::prelude::*;

use crate::error::StoreError;
use crate::metrics::sat_add;
use crate::types::{keys_view, HgId, Key, KeyView, NodeInfo, NodeInfoView};
use crate::value::{
    Entry, EntryView, FileAuxData, FileAuxDataView, RemoteTreeEntry, RemoteTreeEntryView,
    TreeAuxData, TreeAuxDataView,
};

verus! {

/// The first entry of `entries` keyed by the hash `h`, if any.
pub open spec fn log_lookup(entries: Seq<EntryView>, h: Seq<u8>) -> Option<EntryView>
    decreases entries.len(),
{
    if entries.len() == 0 {
        None
    } else if entries[0].key.hgid == h {
        Some(entries[0])
    } else {
        log_lookup(entries.drop_first(), h)
    }
}

/// Where the first match sits at index `i`, the lookup returns it.
pub proof fn lemma_log_lookup_at(entries: Seq<EntryView>, h: Seq<u8>, i: int)
    requires
        0 <= i < entries.len(),
        entries[i].key.hgid == h,
        forall|j: int| 0 <= j < i ==> entries[j].key.hgid != h,
    ensures
        log_lookup(entries, h) == Some(entries[i]),
    decreases i,
{
    if i > 0 {
        lemma_log_lookup_at(entries.drop_first(), h, i - 1);
    }
}

/// Where no entry matches, the lookup returns nothing.
pub proof fn lemma_log_lookup_none(entries: Seq<EntryView>, h: Seq<u8>)
    requires
        forall|j: int| 0 <= j < entries.len() ==> entries[j].key.hgid != h,
    ensures
        log_lookup(entries, h) is None,
    decreases entries.len(),
{
    if entries.len() > 0 {
        lemma_log_lookup_none(entries.drop_first(), h);
    }
}

/// How the lookup reads an appended entry: an earlier match wins, else the
/// new entry answers for its own hash.
pub proof fn lemma_log_lookup_push(entries: Seq<EntryView>, e: EntryView, h: Seq<u8>)
    ensures
        log_lookup(entries.push(e), h) == (if log_lookup(entries, h) is Some {
            log_lookup(entries, h)
        } else if e.key.hgid == h {
            Some(e)
        } else {
            None
        }),
    decreases entries.len(),
{
    if entries.len() == 0 {
        assert(entries.push(e)[0] == e);
        assert(entries.push(e).drop_first() =~= Seq::<EntryView>::empty());
        assert(log_lookup(Seq::<EntryView>::empty(), h) is None);
    } else {
        assert(entries.push(e)[0] == entries[0]);
        assert(entries.push(e).drop_first() =~= entries.drop_first().push(e));
        lemma_log_lookup_push(entries.drop_first(), e, h);
    }
}

/// The first value of `entries` keyed by the hash `h`, if any.
pub open spec fn assoc_lookup<V>(entries: Seq<(Seq<u8>, V)>, h: Seq<u8>) -> Option<V>
    decreases entries.len(),
{
    if entries.len() == 0 {
        None
    } else if entries[0].0 == h {
        Some(entries[0].1)
    } else {
        assoc_lookup(entries.drop_first(), h)
    }
}

/// Where the first match sits at index `i`, the lookup returns its value.
pub proof fn lemma_assoc_lookup_at<V>(entries: Seq<(Seq<u8>, V)>, h: Seq<u8>, i: int)
    requires
        0 <= i < entries.len(),
        entries[i].0 == h,
        forall|j: int| 0 <= j < i ==> entries[j].0 != h,
    ensures
        assoc_lookup(entries, h) == Some(entries[i].1),
    decreases i,
{
    if i > 0 {
        lemma_assoc_lookup_at(entries.drop_first(), h, i - 1);
    }
}

/// Where no pair matches, the lookup returns nothing.
pub proof fn lemma_assoc_lookup_none<V>(entries: Seq<(Seq<u8>, V)>, h: Seq<u8>)
    requires
        forall|j: int| 0 <= j < entries.len() ==> entries[j].0 != h,
    ensures
        assoc_lookup(entries, h) is None,
    decreases entries.len(),
{
    if entries.len() > 0 {
        lemma_assoc_lookup_none(entries.drop_first(), h);
    }
}

/// The view of a content log tier.
#[verifier::ext_equal]
pub struct LogStoreView {
    pub entries: Seq<EntryView>,
    pub unflushed: u64,
    pub fail_flush: bool,
    pub queried: Seq<KeyView>,
}

/// A durable content log tier: the local log stores content created
/// locally, the cache log stores content downloaded from the remote tier.
/// Lookups are by content hash; `queried` records every key asked of
/// `get_entry`.
#[derive(Debug)]
pub struct IndexedLogDataStore {
    pub entries: Vec<Entry>,
    pub unflushed: u64,
    pub fail_flush: bool,
    pub queried: Vec<Key>,
}

impl View for IndexedLogDataStore {
    type V = LogStoreView;

    open spec fn view(&self) -> LogStoreView {
        LogStoreView {
            entries: self.entries@.map_values(|e: Entry| e@),
            unflushed: self.unflushed,
            fail_flush: self.fail_flush,
            queried: keys_view(self.queried@),
        }
    }
}

impl IndexedLogDataStore {
    /// An empty log tier.
    pub fn new() -> (r: IndexedLogDataStore)
        ensures
            r@.entries == Seq::<EntryView>::empty(),
            r@.unflushed == 0,
            !r@.fail_flush,
            r@.queried == Seq::<KeyView>::empty(),
    {
        let r = IndexedLogDataStore {
            entries: Vec::new(),
            unflushed: 0,
            fail_flush: false,
            queried: Vec::new(),
        };
        proof {
            assert(r@.entries =~= Seq::<EntryView>::empty());
            assert(r@.queried =~= Seq::<KeyView>::empty());
        }
        r
    }

    /// Arranges for the next flushes to fail, modelling an I/O fault of the
    /// underlying log.
    pub fn set_fail_flush(&mut self, fail: bool)
        ensures
            final(self)@ == (LogStoreView { fail_flush: fail, ..old(self)@ }),
    {
        self.fail_flush = fail;
        proof {
            assert(self@ =~= (LogStoreView { fail_flush: fail, ..old(self)@ }));
        }
    }

    /// Whether the log holds an entry for the hash.
    pub fn contains(&self, id: &HgId) -> (r: bool)
        ensures
            r == (log_lookup(self@.entries, id@) is Some),
    {
        let mut i: usize = 0;
        while i < self.entries.len()
            invariant
                i <= self.entries.len(),
                forall|j: int| 0 <= j < i ==> self@.entries[j].key.hgid != id@,
            decreases self.entries.len() - i,
        {
            if self.entries[i].key.hgid.same_as(id) {
                proof {
                    lemma_log_lookup_at(self@.entries, id@, i as int);
                }
                return true;
            }
            i = i + 1;
        }
        proof {
            lemma_log_lookup_none(self@.entries, id@);
        }
        false
    }

    /// Looks the key's hash up in the log and records the query.
    pub fn get_entry(&mut self, key: &Key) -> (r: Option<Entry>)
        ensures
            final(self)@ == (LogStoreView { queried: old(self)@.queried.push(key@), ..old(self)@ }),
            match r {
                Some(e) => log_lookup(old(self)@.entries, key@.hgid) == Some(e@),
                None => log_lookup(old(self)@.entries, key@.hgid) is None,
            },
    {
        self.queried.push(key.clone());
        proof {
            assert(self@.queried =~= old(self)@.queried.push(key@));
            assert(self@ =~= (LogStoreView { queried: old(self)@.queried.push(key@), ..old(self)@ }));
        }
        let mut i: usize = 0;
        while i < self.entries.len()
            invariant
                i <= self.entries.len(),
                self@ == (LogStoreView { queried: old(self)@.queried.push(key@), ..old(self)@ }),
                forall|j: int| 0 <= j < i ==> self@.entries[j].key.hgid != key@.hgid,
            decreases self.entries.len() - i,
        {
            if self.entries[i].key.hgid.same_as(&key.hgid) {
                proof {
                    lemma_log_lookup_at(self@.entries, key@.hgid, i as int);
                }
                return Some(self.entries[i].clone());
            }
            i = i + 1;
        }
        proof {
            lemma_log_lookup_none(self@.entries, key@.hgid);
        }
        None
    }

    /// Appends an entry, unless the log already holds one for its hash:
    /// re-writing the same content is idempotent and dropped.
    pub fn put_entry(&mut self, entry: Entry)
        ensures
            final(self)@ == (if log_lookup(old(self)@.entries, entry@.key.hgid) is Some {
                old(self)@
            } else {
                LogStoreView {
                    entries: old(self)@.entries.push(entry@),
                    unflushed: sat_add(old(self)@.unflushed, 1),
                    ..old(self)@
                }
            }),
    {
        if self.contains(&entry.key.hgid) {
            return ;
        }
        self.entries.push(entry);
        self.unflushed = sat_add(self.unflushed, 1);
        proof {
            assert(self@.entries =~= old(self)@.entries.push(self.entries@.last()@));
            assert(self@ =~= (LogStoreView {
                entries: old(self)@.entries.push(self.entries@.last()@),
                unflushed: sat_add(old(self)@.unflushed, 1),
                ..old(self)@
            }));
        }
    }

    /// Forces buffered writes down, or reports the injected fault.
    pub fn flush_log(&mut self) -> (r: Result<(), StoreError>)
        ensures
            old(self)@.fail_flush ==> r == Err::<(), StoreError>(StoreError::FlushFailed)
                && *final(self) == *old(self),
            !old(self)@.fail_flush ==> r == Ok::<(), StoreError>(()) && final(self)@
                == (LogStoreView { unflushed: 0, ..old(self)@ }),
    {
        if self.fail_flush {
            Err(StoreError::FlushFailed)
        } else {
            self.unflushed = 0;
            proof {
                assert(self@ =~= (LogStoreView { unflushed: 0, ..old(self)@ }));
            }
            Ok(())
        }
    }

    /// The keys this log was asked for, oldest first.
    pub fn queried_log(&self) -> (r: &Vec<Key>)
        ensures
            keys_view(r@) == self@.queried,
    {
        &self.queried
    }
}

/// The view of a history tier.
#[verifier::ext_equal]
pub struct HistoryStoreView {
    pub entries: Seq<(Seq<u8>, NodeInfoView)>,
    pub unflushed: u64,
    pub fail_flush: bool,
    pub queried: Seq<KeyView>,
}

/// A history tier: parent linkage by content hash. `queried` records every
/// key asked of `get_node_info`.
#[derive(Debug)]
pub struct IndexedLogHistoryStore {
    pub entries: Vec<(HgId, NodeInfo)>,
    pub unflushed: u64,
    pub fail_flush: bool,
    pub queried: Vec<Key>,
}

impl View for IndexedLogHistoryStore {
    type V = HistoryStoreView;

    open spec fn view(&self) -> HistoryStoreView {
        HistoryStoreView {
            entries: self.entries@.map_values(|p: (HgId, NodeInfo)| (p.0@, p.1@)),
            unflushed: self.unflushed,
            fail_flush: self.fail_flush,
            queried: keys_view(self.queried@),
        }
    }
}

impl IndexedLogHistoryStore {
    /// An empty history tier.
    pub fn new() -> (r: IndexedLogHistoryStore)
        ensures
            r@.entries == Seq::<(Seq<u8>, NodeInfoView)>::empty(),
            r@.unflushed == 0,
            !r@.fail_flush,
            r@.queried == Seq::<KeyView>::empty(),
    {
        let r = IndexedLogHistoryStore {
            entries: Vec::new(),
            unflushed: 0,
            fail_flush: false,
            queried: Vec::new(),
        };
        proof {
            assert(r@.entries =~= Seq::<(Seq<u8>, NodeInfoView)>::empty());
            assert(r@.queried =~= Seq::<KeyView>::empty());
        }
        r
    }

    /// Arranges for the next flushes to fail, modelling an I/O fault.
    pub fn set_fail_flush(&mut self, fail: bool)
        ensures
            final(self)@ == (HistoryStoreView { fail_flush: fail, ..old(self)@ }),
    {
        self.fail_flush = fail;
        proof {
            assert(self@ =~= (HistoryStoreView { fail_flush: fail, ..old(self)@ }));
        }
    }

    /// Looks the key's parent linkage up and records the query.
    pub fn get_node_info(&mut self, key: &Key) -> (r: Option<NodeInfo>)
        ensures
            final(self)@ == (HistoryStoreView {
                queried: old(self)@.queried.push(key@),
                ..old(self)@
            }),
            match r {
                Some(n) => assoc_lookup(old(self)@.entries, key@.hgid) == Some(n@),
                None => assoc_lookup(old(self)@.entries, key@.hgid) is None,
            },
    {
        self.queried.push(key.clone());
        proof {
            assert(self@.queried =~= old(self)@.queried.push(key@));
            assert(self@ =~= (HistoryStoreView {
                queried: old(self)@.queried.push(key@),
                ..old(self)@
            }));
        }
        let mut i: usize = 0;
        while i < self.entries.len()
            invariant
                i <= self.entries.len(),
                self@ == (HistoryStoreView { queried: old(self)@.queried.push(key@), ..old(self)@ }),
                forall|j: int| 0 <= j < i ==> self@.entries[j].0 != key@.hgid,
            decreases self.entries.len() - i,
        {
            if self.entries[i].0.same_as(&key.hgid) {
                proof {
                    lemma_assoc_lookup_at(self@.entries, key@.hgid, i as int);
                }
                return Some(self.entries[i].1.clone());
            }
            i = i + 1;
        }
        proof {
            lemma_assoc_lookup_none(self@.entries, key@.hgid);
        }
        None
    }

    /// Records parent linkage for a key's hash, unless some is already
    /// recorded: re-writing is idempotent and dropped.
    pub fn add(&mut self, key: &Key, info: &NodeInfo)
        ensures
            final(self)@ == (if assoc_lookup(old(self)@.entries, key@.hgid) is Some {
                old(self)@
            } else {
                HistoryStoreView {
                    entries: old(self)@.entries.push((key@.hgid, info@)),
                    unflushed: sat_add(old(self)@.unflushed, 1),
                    ..old(self)@
                }
            }),
    {
        let mut i: usize = 0;
        while i < self.entries.len()
            invariant
                i <= self.entries.len(),
                self@ == old(self)@,
                forall|j: int| 0 <= j < i ==> self@.entries[j].0 != key@.hgid,
            decreases self.entries.len() - i,
        {
            if self.entries[i].0.same_as(&key.hgid) {
                proof {
                    lemma_assoc_lookup_at(self@.entries, key@.hgid, i as int);
                }
                return ;
            }
            i = i + 1;
        }
        proof {
            lemma_assoc_lookup_none(self@.entries, key@.hgid);
        }
        self.entries.push((key.hgid.clone(), info.clone()));
        self.unflushed = sat_add(self.unflushed, 1);
        proof {
            assert(self@.entries =~= old(self)@.entries.push((key@.hgid, info@)));
            assert(self@ =~= (HistoryStoreView {
                entries: old(self)@.entries.push((key@.hgid, info@)),
                unflushed: sat_add(old(self)@.unflushed, 1),
                ..old(self)@
            }));
        }
    }

    /// Forces buffered writes down, or reports the injected fault.
    pub fn flush(&mut self) -> (r: Result<(), StoreError>)
        ensures
            old(self)@.fail_flush ==> r == Err::<(), StoreError>(StoreError::FlushFailed)
                && *final(self) == *old(self),
            !old(self)@.fail_flush ==> r == Ok::<(), StoreError>(()) && final(self)@
                == (HistoryStoreView { unflushed: 0, ..old(self)@ }),
    {
        if self.fail_flush {
            Err(StoreError::FlushFailed)
        } else {
            self.unflushed = 0;
            proof {
                assert(self@ =~= (HistoryStoreView { unflushed: 0, ..old(self)@ }));
            }
            Ok(())
        }
    }

    /// The keys this tier was asked for, oldest first.
    pub fn queried_log(&self) -> (r: &Vec<Key>)
        ensures
            keys_view(r@) == self@.queried,
    {
        &self.queried
    }
}

/// Which facets one remote batch call asks the server to include.
#[derive(Clone, Copy, Debug, PartialEq, Eq, Structural)]
pub struct TreeAttrRequest {
    pub manifest_blob: bool,
    pub parents: bool,
    pub child_metadata: bool,
    pub augmented_trees: bool,
}

/// The views of a sequence of remote entries.
pub open spec fn remote_entries_view(s: Seq<RemoteTreeEntry>) -> Seq<RemoteTreeEntryView> {
    s.map_values(|e: RemoteTreeEntry| e@)
}

/// The first remote entry keyed by the hash `h`, if any.
pub open spec fn remote_lookup(entries: Seq<RemoteTreeEntryView>, h: Seq<u8>) -> Option<
    RemoteTreeEntryView,
>
    decreases entries.len(),
{
    if entries.len() == 0 {
        None
    } else if entries[0].key.hgid == h {
        Some(entries[0])
    } else {
        remote_lookup(entries.drop_first(), h)
    }
}

/// Where the first match sits at index `i`, the lookup returns it.
pub proof fn lemma_remote_lookup_at(entries: Seq<RemoteTreeEntryView>, h: Seq<u8>, i: int)
    requires
        0 <= i < entries.len(),
        entries[i].key.hgid == h,
        forall|j: int| 0 <= j < i ==> entries[j].key.hgid != h,
    ensures
        remote_lookup(entries, h) == Some(entries[i]),
    decreases i,
{
    if i > 0 {
        lemma_remote_lookup_at(entries.drop_first(), h, i - 1);
    }
}

/// Where no entry matches, the lookup returns nothing.
pub proof fn lemma_remote_lookup_none(entries: Seq<RemoteTreeEntryView>, h: Seq<u8>)
    requires
        forall|j: int| 0 <= j < entries.len() ==> entries[j].key.hgid != h,
    ensures
        remote_lookup(entries, h) is None,
    decreases entries.len(),
{
    if entries.len() > 0 {
        lemma_remote_lookup_none(entries.drop_first(), h);
    }
}

/// A response entry as the server sends it: with its child metadata where
/// the request asked for it, without otherwise.
pub open spec fn strip_children(e: RemoteTreeEntryView, child_metadata: bool) -> RemoteTreeEntryView {
    if child_metadata {
        e
    } else {
        RemoteTreeEntryView { children: Seq::empty(), ..e }
    }
}

/// What one batch call returns: for each requested key that the server
/// knows, in request order, its entry, shaped by the request's facets.
pub open spec fn remote_response(
    entries: Seq<RemoteTreeEntryView>,
    keys: Seq<KeyView>,
    child_metadata: bool,
) -> Seq<RemoteTreeEntryView>
    decreases keys.len(),
{
    if keys.len() == 0 {
        Seq::empty()
    } else {
        let front = remote_response(entries, keys.drop_last(), child_metadata);
        match remote_lookup(entries, keys.last().hgid) {
            Some(e) => front.push(strip_children(e, child_metadata)),
            None => front,
        }
    }
}

/// The view of the remote client.
#[verifier::ext_equal]
pub struct RemoteClientView {
    pub entries: Seq<RemoteTreeEntryView>,
    pub broken: bool,
    pub calls: u64,
    pub requested: Seq<KeyView>,
}

/// The remote network client, modelled over the entries the server holds.
/// `calls` counts batch calls, `requested` concatenates every requested
/// key, and `broken` injects a whole-batch network failure.
#[derive(Debug)]
pub struct RemoteTreeClient {
    pub entries: Vec<RemoteTreeEntry>,
    pub broken: bool,
    pub calls: u64,
    pub requested: Vec<Key>,
}

impl View for RemoteTreeClient {
    type V = RemoteClientView;

    open spec fn view(&self) -> RemoteClientView {
        RemoteClientView {
            entries: remote_entries_view(self.entries@),
            broken: self.broken,
            calls: self.calls,
            requested: keys_view(self.requested@),
        }
    }
}

impl RemoteTreeClient {
    /// A client whose server holds nothing.
    pub fn new() -> (r: RemoteTreeClient)
        ensures
            r@.entries == Seq::<RemoteTreeEntryView>::empty(),
            !r@.broken,
            r@.calls == 0,
            r@.requested == Seq::<KeyView>::empty(),
    {
        let r = RemoteTreeClient {
            entries: Vec::new(),
            broken: false,
            calls: 0,
            requested: Vec::new(),
        };
        proof {
            assert(r@.entries =~= Seq::<RemoteTreeEntryView>::empty());
            assert(r@.requested =~= Seq::<KeyView>::empty());
        }
        r
    }

    /// Gives the modelled server an entry, unless it already holds one for
    /// the same hash.
    pub fn add_entry(&mut self, entry: RemoteTreeEntry)
        ensures
            final(self)@ == (if remote_lookup(old(self)@.entries, entry@.key.hgid) is Some {
                old(self)@
            } else {
                RemoteClientView { entries: old(self)@.entries.push(entry@), ..old(self)@ }
            }),
    {
        let mut i: usize = 0;
        while i < self.entries.len()
            invariant
                i <= self.entries.len(),
                self@ == old(self)@,
                forall|j: int| 0 <= j < i ==> self@.entries[j].key.hgid != entry@.key.hgid,
            decreases self.entries.len() - i,
        {
            if self.entries[i].key.hgid.same_as(&entry.key.hgid) {
                proof {
                    lemma_remote_lookup_at(self@.entries, entry@.key.hgid, i as int);
                }
                return ;
            }
            i = i + 1;
        }
        proof {
            lemma_remote_lookup_none(self@.entries, entry@.key.hgid);
        }
        self.entries.push(entry);
        proof {
            assert(self@.entries =~= old(self)@.entries.push(self.entries@.last()@));
            assert(self@ =~= (RemoteClientView {
                entries: old(self)@.entries.push(self.entries@.last()@),
                ..old(self)@
            }));
        }
    }

    /// Arranges for the next batch calls to fail, modelling a network
    /// fault.
    pub fn set_broken(&mut self, broken: bool)
        ensures
            final(self)@ == (RemoteClientView { broken, ..old(self)@ }),
    {
        self.broken = broken;
        proof {
            assert(self@ =~= (RemoteClientView { broken, ..old(self)@ }));
        }
    }

    /// Where the server holds an entry for the hash, its position.
    fn find(&self, h: &HgId) -> (r: Option<usize>)
        ensures
            match r {
                Some(i) => i < self@.entries.len() && remote_lookup(self@.entries, h@) == Some(
                    self@.entries[i as int],
                ),
                None => remote_lookup(self@.entries, h@) is None,
            },
    {
        let mut i: usize = 0;
        while i < self.entries.len()
            invariant
                i <= self.entries.len(),
                forall|j: int| 0 <= j < i ==> self@.entries[j].key.hgid != h@,
            decreases self.entries.len() - i,
        {
            if self.entries[i].key.hgid.same_as(h) {
                proof {
                    lemma_remote_lookup_at(self@.entries, h@, i as int);
                }
                return Some(i);
            }
            i = i + 1;
        }
        proof {
            lemma_remote_lookup_none(self@.entries, h@);
        }
        None
    }

    /// One batch call: asks the server for every key at once. The call is
    /// counted and its keys logged whether or not it succeeds; a broken
    /// client fails the whole batch with a network-class error.
    pub fn fetch(&mut self, keys: &Vec<Key>, request: TreeAttrRequest) -> (r: Result<
        Vec<RemoteTreeEntry>,
        StoreError,
    >)
        ensures
            final(self)@ == (RemoteClientView {
                calls: sat_add(old(self)@.calls, 1),
                requested: old(self)@.requested + keys_view(keys@),
                ..old(self)@
            }),
            old(self)@.broken ==> r == Err::<Vec<RemoteTreeEntry>, StoreError>(StoreError::Network),
            !old(self)@.broken ==> (r matches Ok(es) && remote_entries_view(es@) == remote_response(
                old(self)@.entries,
                keys_view(keys@),
                request.child_metadata,
            )),
    {
        self.calls = sat_add(self.calls, 1);
        proof {
            assert(self@.requested =~= old(self)@.requested + keys_view(keys@).take(0));
        }
        let mut i: usize = 0;
        while i < keys.len()
            invariant
                i <= keys.len(),
                self@.entries == old(self)@.entries,
                self@.broken == old(self)@.broken,
                self@.calls == sat_add(old(self)@.calls, 1),
                self@.requested == old(self)@.requested + keys_view(keys@).take(i as int),
            decreases keys.len() - i,
        {
            let ghost pre = self.requested@;
            self.requested.push(keys[i].clone());
            proof {
                assert(self.requested@ =~= pre.push(self.requested@.last()));
                assert(self.requested@.last()@ == keys@[i as int]@);
                assert(keys_view(self.requested@) =~= keys_view(pre).push(keys@[i as int]@));
                assert(keys_view(keys@).take(i + 1) =~= keys_view(keys@).take(i as int).push(
                    keys@[i as int]@,
                ));
                assert(keys_view(self.requested@) =~= old(self)@.requested + keys_view(
                    keys@,
                ).take(i + 1));
            }
            i = i + 1;
        }
        proof {
            assert(keys_view(keys@).take(keys@.len() as int) =~= keys_view(keys@));
            assert(self@ =~= (RemoteClientView {
                calls: sat_add(old(self)@.calls, 1),
                requested: old(self)@.requested + keys_view(keys@),
                ..old(self)@
            }));
        }
        if self.broken {
            return Err(StoreError::Network);
        }
        let ghost entries_v = self@.entries;
        let mut out: Vec<RemoteTreeEntry> = Vec::new();
        proof {
            assert(remote_entries_view(out@) =~= remote_response(
                entries_v,
                keys_view(keys@).take(0),
                request.child_metadata,
            ));
        }
        let mut k: usize = 0;
        while k < keys.len()
            invariant
                k <= keys.len(),
                self@.entries == entries_v,
                remote_entries_view(out@) == remote_response(
                    entries_v,
                    keys_view(keys@).take(k as int),
                    request.child_metadata,
                ),
            decreases keys.len() - k,
        {
            let key = &keys[k];
            let ghost prefix = keys_view(keys@).take(k as int);
            match self.find(&key.hgid) {
                Some(i) => {
                    if request.child_metadata {
                        let e = self.entries[i].clone();
                        proof {
                            assert(e@ =~= strip_children(
                                entries_v[i as int],
                                request.child_metadata,
                            ));
                        }
                        out.push(e);
                    } else {
                        let e = &self.entries[i];
                        let stripped = RemoteTreeEntry {
                            key: e.key.clone(),
                            data: crate::types::clone_bytes(&e.data),
                            parents: match &e.parents {
                                Some(p) => Some(p.clone()),
                                None => None,
                            },
                            children: Vec::new(),
                        };
                        proof {
                            assert(stripped@.children =~= Seq::<
                                (Seq<u8>, crate::value::AuxDataView),
                            >::empty());
                            assert(stripped@ =~= strip_children(
                                entries_v[i as int],
                                request.child_metadata,
                            ));
                        }
                        out.push(stripped);
                    }
                }
                None => {
                }
            }
            k = k + 1;
            proof {
                let taken = keys_view(keys@).take(k as int);
                assert(taken.drop_last() =~= prefix);
                assert(taken.last() == keys@[k - 1]@);
                assert(remote_entries_view(out@) =~= remote_response(
                    entries_v,
                    taken,
                    request.child_metadata,
                ));
            }
        }
        proof {
            assert(keys_view(keys@).take(keys@.len() as int) =~= keys_view(keys@));
        }
        Ok(out)
    }
}

/// The view of the legacy fallback store.
#[verifier::ext_equal]
pub struct ContentStoreView {
    pub entries: Seq<(Seq<u8>, Seq<u8>)>,
    pub pending: Seq<(Seq<u8>, Seq<u8>)>,
    pub prefetched: Seq<KeyView>,
    pub refreshes: u64,
}

/// The legacy fallback store: content bytes by hash, with its own pending
/// write buffer. It is consulted only under the explicit fallback mode,
/// only for content, and is never written back to by the fetch path.
/// `prefetched` records every key of every prefetch batch.
#[derive(Debug)]
pub struct ContentStore {
    pub entries: Vec<(HgId, Vec<u8>)>,
    pub pending: Vec<(HgId, Vec<u8>)>,
    pub prefetched: Vec<Key>,
    pub refreshes: u64,
}

impl View for ContentStore {
    type V = ContentStoreView;

    open spec fn view(&self) -> ContentStoreView {
        ContentStoreView {
            entries: self.entries@.map_values(|p: (HgId, Vec<u8>)| (p.0@, p.1@)),
            pending: self.pending@.map_values(|p: (HgId, Vec<u8>)| (p.0@, p.1@)),
            prefetched: keys_view(self.prefetched@),
            refreshes: self.refreshes,
        }
    }
}

impl ContentStore {
    /// An empty legacy store.
    pub fn new() -> (r: ContentStore)
        ensures
            r@.entries == Seq::<(Seq<u8>, Seq<u8>)>::empty(),
            r@.pending == Seq::<(Seq<u8>, Seq<u8>)>::empty(),
            r@.prefetched == Seq::<KeyView>::empty(),
            r@.refreshes == 0,
    {
        let r = ContentStore {
            entries: Vec::new(),
            pending: Vec::new(),
            prefetched: Vec::new(),
            refreshes: 0,
        };
        proof {
            assert(r@.entries =~= Seq::<(Seq<u8>, Seq<u8>)>::empty());
            assert(r@.pending =~= Seq::<(Seq<u8>, Seq<u8>)>::empty());
            assert(r@.prefetched =~= Seq::<KeyView>::empty());
        }
        r
    }

    /// Stores content under a hash, unless some is already stored there.
    pub fn add_blob(&mut self, id: HgId, data: Vec<u8>)
        ensures
            final(self)@ == (if assoc_lookup(old(self)@.entries, id@) is Some {
                old(self)@
            } else {
                ContentStoreView {
                    entries: old(self)@.entries.push((id@, data@)),
                    ..old(self)@
                }
            }),
    {
        let mut i: usize = 0;
        while i < self.entries.len()
            invariant
                i <= self.entries.len(),
                self@ == old(self)@,
                forall|j: int| 0 <= j < i ==> self@.entries[j].0 != id@,
            decreases self.entries.len() - i,
        {
            if self.entries[i].0.same_as(&id) {
                proof {
                    lemma_assoc_lookup_at(self@.entries, id@, i as int);
                }
                return ;
            }
            i = i + 1;
        }
        proof {
            lemma_assoc_lookup_none(self@.entries, id@);
        }
        self.entries.push((id, data));
        proof {
            assert(self@.entries =~= old(self)@.entries.push(
                (self.entries@.last().0@, self.entries@.last().1@),
            ));
            assert(self@ =~= (ContentStoreView {
                entries: old(self)@.entries.push(
                    (self.entries@.last().0@, self.entries@.last().1@),
                ),
                ..old(self)@
            }));
        }
    }

    /// Whether the store holds content for the hash.
    pub fn contains(&self, id: &HgId) -> (r: bool)
        ensures
            r == (assoc_lookup(self@.entries, id@) is Some),
    {
        let mut i: usize = 0;
        while i < self.entries.len()
            invariant
                i <= self.entries.len(),
                forall|j: int| 0 <= j < i ==> self@.entries[j].0 != id@,
            decreases self.entries.len() - i,
        {
            if self.entries[i].0.same_as(id) {
                proof {
                    lemma_assoc_lookup_at(self@.entries, id@, i as int);
                }
                return true;
            }
            i = i + 1;
        }
        proof {
            lemma_assoc_lookup_none(self@.entries, id@);
        }
        false
    }

    /// Readies a batch of keys and records each one asked for.
    pub fn prefetch(&mut self, keys: &Vec<Key>) -> (r: Result<(), StoreError>)
        ensures
            final(self)@ == (ContentStoreView {
                prefetched: old(self)@.prefetched + keys_view(keys@),
                ..old(self)@
            }),
            r is Ok,
    {
        proof {
            assert(self@.prefetched =~= old(self)@.prefetched + keys_view(keys@).take(0));
        }
        let mut i: usize = 0;
        while i < keys.len()
            invariant
                i <= keys.len(),
                self@ == (ContentStoreView {
                    prefetched: old(self)@.prefetched + keys_view(keys@).take(i as int),
                    ..old(self)@
                }),
            decreases keys.len() - i,
        {
            let ghost pre = self.prefetched@;
            self.prefetched.push(keys[i].clone());
            proof {
                assert(self.prefetched@ =~= pre.push(self.prefetched@.last()));
                assert(self.prefetched@.last()@ == keys@[i as int]@);
                assert(keys_view(self.prefetched@) =~= keys_view(pre).push(keys@[i as int]@));
                assert(keys_view(keys@).take(i + 1) =~= keys_view(keys@).take(i as int).push(
                    keys@[i as int]@,
                ));
                assert(keys_view(self.prefetched@) =~= old(self)@.prefetched + keys_view(
                    keys@,
                ).take(i + 1));
                assert(self@ =~= (ContentStoreView {
                    prefetched: old(self)@.prefetched + keys_view(keys@).take(i + 1),
                    ..old(self)@
                }));
            }
            i = i + 1;
        }
        proof {
            assert(keys_view(keys@).take(keys@.len() as int) =~= keys_view(keys@));
        }
        Ok(())
    }

    /// The content stored for the key's hash, if any.
    pub fn get(&self, key: &Key) -> (r: Option<Vec<u8>>)
        ensures
            match r {
                Some(d) => assoc_lookup(self@.entries, key@.hgid) == Some(d@),
                None => assoc_lookup(self@.entries, key@.hgid) is None,
            },
    {
        let mut i: usize = 0;
        while i < self.entries.len()
            invariant
                i <= self.entries.len(),
                forall|j: int| 0 <= j < i ==> self@.entries[j].0 != key@.hgid,
            decreases self.entries.len() - i,
        {
            if self.entries[i].0.same_as(&key.hgid) {
                proof {
                    lemma_assoc_lookup_at(self@.entries, key@.hgid, i as int);
                }
                return Some(crate::types::clone_bytes(&self.entries[i].1));
            }
            i = i + 1;
        }
        proof {
            lemma_assoc_lookup_none(self@.entries, key@.hgid);
        }
        None
    }

    /// Buffers a write for a later commit.
    pub fn add_pending(&mut self, key: &Key, data: Vec<u8>)
        ensures
            final(self)@ == (ContentStoreView {
                pending: old(self)@.pending.push((key@.hgid, data@)),
                ..old(self)@
            }),
    {
        self.pending.push((key.hgid.clone(), data));
        proof {
            assert(self@.pending =~= old(self)@.pending.push(
                (self.pending@.last().0@, self.pending@.last().1@),
            ));
            assert(self@ =~= (ContentStoreView {
                pending: old(self)@.pending.push(
                    (self.pending@.last().0@, self.pending@.last().1@),
                ),
                ..old(self)@
            }));
        }
    }

    /// Moves every buffered write into the store. Earlier content for a
    /// hash keeps answering lookups: re-writing is idempotent.
    pub fn commit_pending(&mut self)
        ensures
            final(self)@ == (ContentStoreView {
                entries: old(self)@.entries + old(self)@.pending,
                pending: Seq::<(Seq<u8>, Seq<u8>)>::empty(),
                ..old(self)@
            }),
    {
        proof {
            assert(self@.entries =~= old(self)@.entries + old(self)@.pending.take(0));
        }
        let n = self.pending.len();
        let mut i: usize = 0;
        while i < n
            invariant
                i <= n,
                n == self.pending.len(),
                self@.pending == old(self)@.pending,
                self@ == (ContentStoreView {
                    entries: old(self)@.entries + old(self)@.pending.take(i as int),
                    ..old(self)@
                }),
            decreases n - i,
        {
            let ghost pre = self.entries@;
            let id = self.pending[i].0.clone();
            let data = crate::types::clone_bytes(&self.pending[i].1);
            self.entries.push((id, data));
            proof {
                assert(self.entries@ =~= pre.push(self.entries@.last()));
                assert(self@.entries =~= (old(self)@.entries + old(self)@.pending.take(i as int)).push(
                    old(self)@.pending[i as int],
                ));
                assert(old(self)@.pending.take(i + 1) =~= old(self)@.pending.take(i as int).push(
                    old(self)@.pending[i as int],
                ));
                assert(self@.entries =~= old(self)@.entries + old(self)@.pending.take(i + 1));
                assert(self@ =~= (ContentStoreView {
                    entries: old(self)@.entries + old(self)@.pending.take(i + 1),
                    ..old(self)@
                }));
            }
            i = i + 1;
        }
        self.pending = Vec::new();
        proof {
            assert(old(self)@.pending.take(old(self)@.pending.len() as int) =~= old(self)@.pending);
            assert(self@.pending =~= Seq::<(Seq<u8>, Seq<u8>)>::empty());
            assert(self@ =~= (ContentStoreView {
                entries: old(self)@.entries + old(self)@.pending,
                pending: Seq::<(Seq<u8>, Seq<u8>)>::empty(),
                ..old(self)@
            }));
        }
    }

    /// Reloads the store's view of its backing data.
    pub fn refresh(&mut self)
        ensures
            final(self)@ == (ContentStoreView {
                refreshes: sat_add(old(self)@.refreshes, 1),
                ..old(self)@
            }),
    {
        self.refreshes = sat_add(self.refreshes, 1);
        proof {
            assert(self@ =~= (ContentStoreView {
                refreshes: sat_add(old(self)@.refreshes, 1),
                ..old(self)@
            }));
        }
    }

    /// The keys this store was asked to prefetch, oldest first.
    pub fn prefetched_log(&self) -> (r: &Vec<Key>)
        ensures
            keys_view(r@) == self@.prefetched,
    {
        &self.prefetched
    }
}

/// The view of the file auxiliary-metadata cache.
#[verifier::ext_equal]
pub struct AuxStoreView {
    pub entries: Seq<(Seq<u8>, FileAuxDataView)>,
}

/// The cache of auxiliary metadata for file children, keyed by the child's
/// content hash. Filled opportunistically from remote responses; never
/// needed for correctness of the current request.
#[derive(Debug)]
pub struct AuxStore {
    pub entries: Vec<(HgId, FileAuxData)>,
}

impl View for AuxStore {
    type V = AuxStoreView;

    open spec fn view(&self) -> AuxStoreView {
        AuxStoreView { entries: self.entries@.map_values(|p: (HgId, FileAuxData)| (p.0@, p.1@)) }
    }
}

impl AuxStore {
    /// An empty cache.
    pub fn new() -> (r: AuxStore)
        ensures
            r@.entries == Seq::<(Seq<u8>, FileAuxDataView)>::empty(),
    {
        let r = AuxStore { entries: Vec::new() };
        proof {
            assert(r@.entries =~= Seq::<(Seq<u8>, FileAuxDataView)>::empty());
        }
        r
    }

    /// Caches metadata under a hash, unless some is already cached there.
    pub fn put(&mut self, id: &HgId, aux: &FileAuxData)
        ensures
            final(self)@ == (if assoc_lookup(old(self)@.entries, id@) is Some {
                old(self)@
            } else {
                AuxStoreView { entries: old(self)@.entries.push((id@, aux@)) }
            }),
    {
        let mut i: usize = 0;
        while i < self.entries.len()
            invariant
                i <= self.entries.len(),
                self@ == old(self)@,
                forall|j: int| 0 <= j < i ==> self@.entries[j].0 != id@,
            decreases self.entries.len() - i,
        {
            if self.entries[i].0.same_as(id) {
                proof {
                    lemma_assoc_lookup_at(self@.entries, id@, i as int);
                }
                return ;
            }
            i = i + 1;
        }
        proof {
            lemma_assoc_lookup_none(self@.entries, id@);
        }
        self.entries.push((id.clone(), aux.clone()));
        proof {
            assert(self@.entries =~= old(self)@.entries.push((id@, aux@)));
            assert(self@ =~= (AuxStoreView { entries: old(self)@.entries.push((id@, aux@)) }));
        }
    }

    /// The metadata cached for the hash, if any.
    pub fn get(&self, id: &HgId) -> (r: Option<FileAuxData>)
        ensures
            match r {
                Some(a) => assoc_lookup(self@.entries, id@) == Some(a@),
                None => assoc_lookup(self@.entries, id@) is None,
            },
    {
        let mut i: usize = 0;
        while i < self.entries.len()
            invariant
                i <= self.entries.len(),
                forall|j: int| 0 <= j < i ==> self@.entries[j].0 != id@,
            decreases self.entries.len() - i,
        {
            if self.entries[i].0.same_as(id) {
                proof {
                    lemma_assoc_lookup_at(self@.entries, id@, i as int);
                }
                return Some(self.entries[i].1.clone());
            }
            i = i + 1;
        }
        proof {
            lemma_assoc_lookup_none(self@.entries, id@);
        }
        None
    }
}

/// The view of the tree auxiliary-metadata store.
#[verifier::ext_equal]
pub struct TreeAuxStoreView {
    pub entries: Seq<(Seq<u8>, TreeAuxDataView)>,
    pub unflushed: u64,
    pub fail_flush: bool,
}

/// The store of auxiliary metadata for directory children, keyed by the
/// child's content hash.
#[derive(Debug)]
pub struct TreeAuxStore {
    pub entries: Vec<(HgId, TreeAuxData)>,
    pub unflushed: u64,
    pub fail_flush: bool,
}

impl View for TreeAuxStore {
    type V = TreeAuxStoreView;

    open spec fn view(&self) -> TreeAuxStoreView {
        TreeAuxStoreView {
            entries: self.entries@.map_values(|p: (HgId, TreeAuxData)| (p.0@, p.1@)),
            unflushed: self.unflushed,
            fail_flush: self.fail_flush,
        }
    }
}

impl TreeAuxStore {
    /// An empty store.
    pub fn new() -> (r: TreeAuxStore)
        ensures
            r@.entries == Seq::<(Seq<u8>, TreeAuxDataView)>::empty(),
            r@.unflushed == 0,
            !r@.fail_flush,
    {
        let r = TreeAuxStore { entries: Vec::new(), unflushed: 0, fail_flush: false };
        proof {
            assert(r@.entries =~= Seq::<(Seq<u8>, TreeAuxDataView)>::empty());
        }
        r
    }

    /// Arranges for the next flushes to fail, modelling an I/O fault.
    pub fn set_fail_flush(&mut self, fail: bool)
        ensures
            final(self)@ == (TreeAuxStoreView { fail_flush: fail, ..old(self)@ }),
    {
        self.fail_flush = fail;
        proof {
            assert(self@ =~= (TreeAuxStoreView { fail_flush: fail, ..old(self)@ }));
        }
    }

    /// Stores metadata under a hash, unless some is already stored there.
    pub fn put(&mut self, id: &HgId, aux: &TreeAuxData)
        ensures
            final(self)@ == (if assoc_lookup(old(self)@.entries, id@) is Some {
                old(self)@
            } else {
                TreeAuxStoreView {
                    entries: old(self)@.entries.push((id@, aux@)),
                    unflushed: sat_add(old(self)@.unflushed, 1),
                    ..old(self)@
                }
            }),
    {
        let mut i: usize = 0;
        while i < self.entries.len()
            invariant
                i <= self.entries.len(),
                self@ == old(self)@,
                forall|j: int| 0 <= j < i ==> self@.entries[j].0 != id@,
            decreases self.entries.len() - i,
        {
            if self.entries[i].0.same_as(id) {
                proof {
                    lemma_assoc_lookup_at(self@.entries, id@, i as int);
                }
                return ;
            }
            i = i + 1;
        }
        proof {
            lemma_assoc_lookup_none(self@.entries, id@);
        }
        self.entries.push((id.clone(), aux.clone()));
        self.unflushed = sat_add(self.unflushed, 1);
        proof {
            assert(self@.entries =~= old(self)@.entries.push((id@, aux@)));
            assert(self@ =~= (TreeAuxStoreView {
                entries: old(self)@.entries.push((id@, aux@)),
                unflushed: sat_add(old(self)@.unflushed, 1),
                ..old(self)@
            }));
        }
    }

    /// The metadata stored for the hash, if any.
    pub fn get(&self, id: &HgId) -> (r: Option<TreeAuxData>)
        ensures
            match r {
                Some(a) => assoc_lookup(self@.entries, id@) == Some(a@),
                None => assoc_lookup(self@.entries, id@) is None,
            },
    {
        let mut i: usize = 0;
        while i < self.entries.len()
            invariant
                i <= self.entries.len(),
                forall|j: int| 0 <= j < i ==> self@.entries[j].0 != id@,
            decreases self.entries.len() - i,
        {
            if self.entries[i].0.same_as(id) {
                proof {
                    lemma_assoc_lookup_at(self@.entries, id@, i as int);
                }
                return Some(self.entries[i].1.clone());
            }
            i = i + 1;
        }
        proof {
            lemma_assoc_lookup_none(self@.entries, id@);
        }
        None
    }

    /// Forces buffered writes down, or reports the injected fault.
    pub fn flush(&mut self) -> (r: Result<(), StoreError>)
        ensures
            old(self)@.fail_flush ==> r == Err::<(), StoreError>(StoreError::FlushFailed)
                && *final(self) == *old(self),
            !old(self)@.fail_flush ==> r == Ok::<(), StoreError>(()) && final(self)@
                == (TreeAuxStoreView { unflushed: 0, ..old(self)@ }),
    {
        if self.fail_flush {
            Err(StoreError::FlushFailed)
        } else {
            self.unflushed = 0;
            proof {
                assert(self@ =~= (TreeAuxStoreView { unflushed: 0, ..old(self)@ }));
            }
            Ok(())
        }
    }
}

} // verus!
