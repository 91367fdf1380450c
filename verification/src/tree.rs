//! The tree store and its fetch orchestrator: the tier waterfall.
//!
//! A batch fetch consults the tiers in priority order — cache log, local
//! log, cache history, local history, remote client, legacy fallback —
//! asking each tier only for the keys and facets still unsatisfied,
//! merging each partial answer into the per-key state, back-filling the
//! faster tiers with remotely fetched data, and finally reporting every
//! still-unsatisfied key as not found.

use vstd::prelude::*;

use crate::attrs::TreeAttributes;
use crate::error::StoreError;
use crate::fetch::{
    canonical_empty_view, find_slot, results_view, sentinel_items, sentinel_keys, slot_keys,
    slot_results, tracked_keys, FetchItem, FetchItemView, FetchMode, FetchResults, PendingTracker,
    PendingTrackerView, SlotView,
};
use crate::metrics::{
    now_millis, sat_sub, spec_sat_add, FetchMetrics, TreeStoreFetchMetrics, TreeStoreMetrics,
};
use crate::tiers::{
    assoc_lookup, log_lookup, remote_response, AuxStore, AuxStoreView, ContentStore,
    ContentStoreView, HistoryStoreView, IndexedLogDataStore, IndexedLogHistoryStore, LogStoreView,
    RemoteClientView, RemoteTreeClient, TreeAttrRequest, TreeAuxStore, TreeAuxStoreView,
};
use crate::types::{keys_view, null_hash, HgId, Key, KeyView, NodeInfo, NodeInfoView};
use crate::tiers::remote_entries_view;
use crate::value::{
    children_view, AuxData, AuxDataView, Entry, EntryView, LazyTree, LazyTreeView, Metadata,
    RemoteTreeEntryView, StoreTree, StoreTreeView,
};

verus! {

/// Whether remote fetches ask for extra per-child metadata: never, always,
/// or only on prefetch-style calls.
#[derive(Clone, Copy, Debug, PartialEq, Eq, Structural)]
pub enum TreeMetadataMode {
    Never,
    Always,
    OptIn,
}

/// Batches larger than this are worth a dedicated worker thread.
pub const BATCH_SPAWN_THRESHOLD: usize = 1000;

/// Whether a batch of `keys_len` pending keys should be offloaded to a
/// dedicated worker thread rather than run on the caller's thread. The
/// fetch algorithm itself is the same either way.
pub fn should_spawn_batch(keys_len: usize) -> (r: bool)
    ensures
        r == (keys_len > BATCH_SPAWN_THRESHOLD),
{
    keys_len > BATCH_SPAWN_THRESHOLD
}

/// The partial value a content log entry stands for.
pub open spec fn log_entry_value(e: EntryView) -> StoreTreeView {
    StoreTreeView { content: Some(LazyTreeView::IndexedLog(e)), parents: None }
}

/// The partial value a history record stands for.
pub open spec fn hist_entry_value(n: NodeInfoView) -> StoreTreeView {
    StoreTreeView { content: None, parents: Some(n.parents) }
}

/// The partial value a remote response entry stands for.
pub open spec fn remote_entry_value(e: RemoteTreeEntryView) -> StoreTreeView {
    StoreTreeView { content: Some(LazyTreeView::SaplingRemoteApi(e)), parents: e.parents }
}

/// The partial value a legacy blob stands for.
pub open spec fn legacy_value(data: Seq<u8>) -> StoreTreeView {
    StoreTreeView { content: Some(LazyTreeView::ContentStore(data)), parents: None }
}

/// The keys, in slot order, that a content tier is asked for: those whose
/// pending facets include content.
pub open spec fn content_pending_keys(slots: Seq<SlotView>, requested: TreeAttributes) -> Seq<
    KeyView,
>
    decreases slots.len(),
{
    if slots.len() == 0 {
        Seq::empty()
    } else {
        let front = content_pending_keys(slots.drop_last(), requested);
        if slots.last().pending(requested).content {
            front.push(slots.last().key)
        } else {
            front
        }
    }
}

/// The keys, in slot order, that a history tier is asked for: those whose
/// pending facets include parents.
pub open spec fn parents_pending_keys(slots: Seq<SlotView>, requested: TreeAttributes) -> Seq<
    KeyView,
>
    decreases slots.len(),
{
    if slots.len() == 0 {
        Seq::empty()
    } else {
        let front = parents_pending_keys(slots.drop_last(), requested);
        if slots.last().pending(requested).parents {
            front.push(slots.last().key)
        } else {
            front
        }
    }
}

/// The keys, in slot order, that the remote tier is asked for: those with
/// any pending facet.
pub open spec fn remote_pending_keys(slots: Seq<SlotView>, requested: TreeAttributes) -> Seq<
    KeyView,
>
    decreases slots.len(),
{
    if slots.len() == 0 {
        Seq::empty()
    } else {
        let front = remote_pending_keys(slots.drop_last(), requested);
        let p = slots.last().pending(requested);
        if p.content || p.parents {
            front.push(slots.last().key)
        } else {
            front
        }
    }
}

/// One slot after a content log stage: where content is still pending and
/// the log holds the key's hash, the entry's value is merged in.
pub open spec fn log_stage_slot(
    s: SlotView,
    requested: TreeAttributes,
    entries: Seq<EntryView>,
) -> SlotView {
    if s.pending(requested).content {
        match log_lookup(entries, s.key.hgid) {
            Some(e) => SlotView { key: s.key, value: s.value.merge(log_entry_value(e)) },
            None => s,
        }
    } else {
        s
    }
}

/// Every slot after a content log stage.
pub open spec fn log_stage_slots(
    slots: Seq<SlotView>,
    requested: TreeAttributes,
    entries: Seq<EntryView>,
) -> Seq<SlotView>
    decreases slots.len(),
{
    if slots.len() == 0 {
        Seq::empty()
    } else {
        log_stage_slots(slots.drop_last(), requested, entries).push(
            log_stage_slot(slots.last(), requested, entries),
        )
    }
}

/// A content log stage rewrites each slot independently.
pub proof fn lemma_log_stage_slots_index(
    slots: Seq<SlotView>,
    requested: TreeAttributes,
    entries: Seq<EntryView>,
)
    ensures
        log_stage_slots(slots, requested, entries).len() == slots.len(),
        forall|i: int|
            0 <= i < slots.len() ==> log_stage_slots(slots, requested, entries)[i]
                == log_stage_slot(slots[i], requested, entries),
    decreases slots.len(),
{
    if slots.len() > 0 {
        lemma_log_stage_slots_index(slots.drop_last(), requested, entries);
    }
}

/// How many keys a content log stage finds.
pub open spec fn log_stage_hits(
    slots: Seq<SlotView>,
    requested: TreeAttributes,
    entries: Seq<EntryView>,
) -> int
    decreases slots.len(),
{
    if slots.len() == 0 {
        0int
    } else {
        log_stage_hits(slots.drop_last(), requested, entries) + (if slots.last().pending(
            requested,
        ).content && log_lookup(entries, slots.last().key.hgid) is Some {
            1int
        } else {
            0int
        })
    }
}

/// One slot after a history stage: where parents are still pending and the
/// tier holds the key's hash, the recorded parents are merged in.
pub open spec fn hist_stage_slot(
    s: SlotView,
    requested: TreeAttributes,
    entries: Seq<(Seq<u8>, NodeInfoView)>,
) -> SlotView {
    if s.pending(requested).parents {
        match assoc_lookup(entries, s.key.hgid) {
            Some(n) => SlotView { key: s.key, value: s.value.merge(hist_entry_value(n)) },
            None => s,
        }
    } else {
        s
    }
}

/// Every slot after a history stage.
pub open spec fn hist_stage_slots(
    slots: Seq<SlotView>,
    requested: TreeAttributes,
    entries: Seq<(Seq<u8>, NodeInfoView)>,
) -> Seq<SlotView>
    decreases slots.len(),
{
    if slots.len() == 0 {
        Seq::empty()
    } else {
        hist_stage_slots(slots.drop_last(), requested, entries).push(
            hist_stage_slot(slots.last(), requested, entries),
        )
    }
}

/// A history stage rewrites each slot independently.
pub proof fn lemma_hist_stage_slots_index(
    slots: Seq<SlotView>,
    requested: TreeAttributes,
    entries: Seq<(Seq<u8>, NodeInfoView)>,
)
    ensures
        hist_stage_slots(slots, requested, entries).len() == slots.len(),
        forall|i: int|
            0 <= i < slots.len() ==> hist_stage_slots(slots, requested, entries)[i]
                == hist_stage_slot(slots[i], requested, entries),
    decreases slots.len(),
{
    if slots.len() > 0 {
        lemma_hist_stage_slots_index(slots.drop_last(), requested, entries);
    }
}

/// The slots after merging one remote response entry into the slot of its
/// key, if that key is tracked.
pub open spec fn remote_entry_slots(slots: Seq<SlotView>, e: RemoteTreeEntryView) -> Seq<SlotView> {
    match find_slot(slots, e.key) {
        Some(i) => slots.update(
            i,
            SlotView { key: slots[i].key, value: slots[i].value.merge(remote_entry_value(e)) },
        ),
        None => slots,
    }
}

/// The slots after merging every remote response entry, in response order.
pub open spec fn remote_stage_slots(
    slots: Seq<SlotView>,
    rs: Seq<RemoteTreeEntryView>,
) -> Seq<SlotView>
    decreases rs.len(),
{
    if rs.len() == 0 {
        slots
    } else {
        remote_entry_slots(remote_stage_slots(slots, rs.drop_last()), rs.last())
    }
}

/// The cache log after writing back every remote response entry: each
/// entry's content is appended under its key unless the log already holds
/// that hash, and each append counts as an unflushed write.
pub open spec fn writeback_log(v: LogStoreView, rs: Seq<RemoteTreeEntryView>) -> LogStoreView
    decreases rs.len(),
{
    if rs.len() == 0 {
        v
    } else {
        let front = writeback_log(v, rs.drop_last());
        let e = rs.last();
        if log_lookup(front.entries, e.key.hgid) is Some {
            front
        } else {
            LogStoreView {
                entries: front.entries.push(
                    EntryView { key: e.key, data: e.data, meta: Metadata { size: None, flags: None } },
                ),
                unflushed: spec_sat_add(front.unflushed, 1),
                ..front
            }
        }
    }
}

/// The file-aux cache after writing back the children of one remote
/// response entry: each file child's metadata is cached under the child's
/// hash unless some already is.
pub open spec fn writeback_aux_children(
    v: AuxStoreView,
    children: Seq<(Seq<u8>, AuxDataView)>,
) -> AuxStoreView
    decreases children.len(),
{
    if children.len() == 0 {
        v
    } else {
        let front = writeback_aux_children(v, children.drop_last());
        let c = children.last();
        match c.1 {
            AuxDataView::File(f) => {
                if assoc_lookup(front.entries, c.0) is Some {
                    front
                } else {
                    AuxStoreView { entries: front.entries.push((c.0, f)) }
                }
            },
            AuxDataView::Tree(_t) => front,
        }
    }
}

/// The file-aux cache after writing back every remote response entry.
pub open spec fn writeback_aux(v: AuxStoreView, rs: Seq<RemoteTreeEntryView>) -> AuxStoreView
    decreases rs.len(),
{
    if rs.len() == 0 {
        v
    } else {
        writeback_aux_children(writeback_aux(v, rs.drop_last()), rs.last().children)
    }
}

/// The tree-aux store after writing back the children of one remote
/// response entry: each directory child's metadata is stored under the
/// child's hash unless some already is.
pub open spec fn writeback_treeaux_children(
    v: TreeAuxStoreView,
    children: Seq<(Seq<u8>, AuxDataView)>,
) -> TreeAuxStoreView
    decreases children.len(),
{
    if children.len() == 0 {
        v
    } else {
        let front = writeback_treeaux_children(v, children.drop_last());
        let c = children.last();
        match c.1 {
            AuxDataView::Tree(t) => {
                if assoc_lookup(front.entries, c.0) is Some {
                    front
                } else {
                    TreeAuxStoreView {
                        entries: front.entries.push((c.0, t)),
                        unflushed: spec_sat_add(front.unflushed, 1),
                        ..front
                    }
                }
            },
            AuxDataView::File(_f) => front,
        }
    }
}

/// The tree-aux store after writing back every remote response entry.
pub open spec fn writeback_treeaux(
    v: TreeAuxStoreView,
    rs: Seq<RemoteTreeEntryView>,
) -> TreeAuxStoreView
    decreases rs.len(),
{
    if rs.len() == 0 {
        v
    } else {
        writeback_treeaux_children(writeback_treeaux(v, rs.drop_last()), rs.last().children)
    }
}

/// The cache history tier after writing back every remote response entry
/// that carried parents: the parent pair is recorded under the entry's
/// hash, with the sentinel link revision, unless some already is.
pub open spec fn writeback_hist(
    v: HistoryStoreView,
    rs: Seq<RemoteTreeEntryView>,
) -> HistoryStoreView
    decreases rs.len(),
{
    if rs.len() == 0 {
        v
    } else {
        let front = writeback_hist(v, rs.drop_last());
        let e = rs.last();
        match e.parents {
            Some(p) => {
                if assoc_lookup(front.entries, e.key.hgid) is Some {
                    front
                } else {
                    HistoryStoreView {
                        entries: front.entries.push(
                            (e.key.hgid, NodeInfoView { parents: p, linknode: null_hash() }),
                        ),
                        unflushed: spec_sat_add(front.unflushed, 1),
                        ..front
                    }
                }
            },
            None => front,
        }
    }
}

/// Queries one content log tier for every slot still pending content,
/// merging each hit into its slot and counting the tier's metrics. The
/// tier's query log grows by exactly the keys asked.
fn fetch_from_log(
    tracker: &mut PendingTracker,
    log: &mut IndexedLogDataStore,
    metrics: &mut FetchMetrics,
)
    ensures
        final(tracker)@ == (PendingTrackerView {
            slots: log_stage_slots(
                old(tracker)@.slots,
                old(tracker)@.requested,
                old(log)@.entries,
            ),
            ..old(tracker)@
        }),
        final(log)@ == (LogStoreView {
            queried: old(log)@.queried + content_pending_keys(
                old(tracker)@.slots,
                old(tracker)@.requested,
            ),
            ..old(log)@
        }),
        final(metrics).fetches == spec_sat_add(
            old(metrics).fetches,
            content_pending_keys(old(tracker)@.slots, old(tracker)@.requested).len() as u64,
        ),
        final(metrics).hits == spec_sat_add(
            old(metrics).hits,
            log_stage_hits(old(tracker)@.slots, old(tracker)@.requested, old(log)@.entries) as u64,
        ),
        final(metrics).misses == spec_sat_add(
            old(metrics).misses,
            (content_pending_keys(old(tracker)@.slots, old(tracker)@.requested).len()
                - log_stage_hits(
                old(tracker)@.slots,
                old(tracker)@.requested,
                old(log)@.entries,
            )) as u64,
        ),
        final(metrics).time_ms >= old(metrics).time_ms,
{
    let ghost slots0 = tracker@.slots;
    let ghost requested = tracker@.requested;
    let ghost entries0 = log@.entries;
    let start = now_millis();
    let n = tracker.len();
    let mut fetch_count: usize = 0;
    let mut found_count: usize = 0;
    let mut i: usize = 0;
    while i < n
        invariant
            i <= n,
            n == slots0.len(),
            slots0 == old(tracker)@.slots,
            requested == old(tracker)@.requested,
            entries0 == old(log)@.entries,
            tracker@.requested == requested,
            tracker@.immediate == old(tracker)@.immediate,
            tracker@.slots.len() == n,
            forall|j: int|
                i <= j < n ==> (#[trigger] tracker@.slots[j]) == slots0[j],
            forall|j: int|
                0 <= j < i ==> (#[trigger] tracker@.slots[j]) == log_stage_slot(
                    slots0[j],
                    requested,
                    entries0,
                ),
            log@ == (LogStoreView {
                queried: old(log)@.queried + content_pending_keys(
                    slots0.take(i as int),
                    requested,
                ),
                ..old(log)@
            }),
            fetch_count == content_pending_keys(slots0.take(i as int), requested).len(),
            found_count == log_stage_hits(slots0.take(i as int), requested, entries0),
            found_count <= fetch_count <= i,
        decreases n - i,
    {
        let ghost prefix = slots0.take(i as int);
        let pending = tracker.pending_at(i);
        if pending.content {
            fetch_count = fetch_count + 1;
            let key = tracker.key_at(i).clone();
            proof {
                assert(tracker@.slots[i as int] == slots0[i as int]);
                assert(key@ == slots0[i as int].key);
            }
            let ghost prelog = log@;
            match log.get_entry(&key) {
                Some(e) => {
                    proof {
                        assert(log_lookup(entries0, slots0[i as int].key.hgid) == Some(e@));
                    }
                    let value = StoreTree::from_content(LazyTree::IndexedLog(e));
                    proof {
                        assert(value@ =~= log_entry_value(
                            log_lookup(entries0, slots0[i as int].key.hgid)->0,
                        ));
                    }
                    tracker.record_at(i, value);
                    found_count = found_count + 1;
                }
                None => {
                }
            }
            proof {
                assert(log@.queried =~= prelog.queried.push(slots0[i as int].key));
            }
        }
        i = i + 1;
        proof {
            let taken = slots0.take(i as int);
            assert(taken.drop_last() =~= prefix);
            assert(taken.last() == slots0[i - 1]);
            if slots0[i - 1].pending(requested).content {
                assert(content_pending_keys(taken, requested) =~= content_pending_keys(
                    prefix,
                    requested,
                ).push(slots0[i - 1].key));
            } else {
                assert(content_pending_keys(taken, requested) =~= content_pending_keys(
                    prefix,
                    requested,
                ));
            }
            assert(log@.queried =~= old(log)@.queried + content_pending_keys(taken, requested));
            assert(log@ =~= (LogStoreView {
                queried: old(log)@.queried + content_pending_keys(taken, requested),
                ..old(log)@
            }));
            assert(tracker@.slots[i - 1] == log_stage_slot(slots0[i - 1], requested, entries0));
        }
    }
    proof {
        assert(slots0.take(n as int) =~= slots0);
        lemma_log_stage_slots_index(slots0, requested, entries0);
        assert(tracker@.slots =~= log_stage_slots(slots0, requested, entries0));
        assert(tracker@ =~= (PendingTrackerView {
            slots: log_stage_slots(slots0, requested, entries0),
            ..old(tracker)@
        }));
    }
    metrics.fetch(fetch_count as u64);
    metrics.hit(found_count as u64);
    metrics.miss(sat_sub(fetch_count as u64, found_count as u64));
    let end = now_millis();
    metrics.add_time(sat_sub(end, start));
}

/// Queries one history tier for every slot still pending parents, merging
/// each hit into its slot. The tier's query log grows by exactly the keys
/// asked.
fn fetch_from_history(tracker: &mut PendingTracker, hist: &mut IndexedLogHistoryStore)
    ensures
        final(tracker)@ == (PendingTrackerView {
            slots: hist_stage_slots(
                old(tracker)@.slots,
                old(tracker)@.requested,
                old(hist)@.entries,
            ),
            ..old(tracker)@
        }),
        final(hist)@ == (HistoryStoreView {
            queried: old(hist)@.queried + parents_pending_keys(
                old(tracker)@.slots,
                old(tracker)@.requested,
            ),
            ..old(hist)@
        }),
{
    let ghost slots0 = tracker@.slots;
    let ghost requested = tracker@.requested;
    let ghost entries0 = hist@.entries;
    let n = tracker.len();
    let mut i: usize = 0;
    while i < n
        invariant
            i <= n,
            n == slots0.len(),
            slots0 == old(tracker)@.slots,
            requested == old(tracker)@.requested,
            entries0 == old(hist)@.entries,
            tracker@.requested == requested,
            tracker@.immediate == old(tracker)@.immediate,
            tracker@.slots.len() == n,
            forall|j: int|
                i <= j < n ==> (#[trigger] tracker@.slots[j]) == slots0[j],
            forall|j: int|
                0 <= j < i ==> (#[trigger] tracker@.slots[j]) == hist_stage_slot(
                    slots0[j],
                    requested,
                    entries0,
                ),
            hist@ == (HistoryStoreView {
                queried: old(hist)@.queried + parents_pending_keys(
                    slots0.take(i as int),
                    requested,
                ),
                ..old(hist)@
            }),
        decreases n - i,
    {
        let ghost prefix = slots0.take(i as int);
        let pending = tracker.pending_at(i);
        if pending.parents {
            let key = tracker.key_at(i).clone();
            proof {
                assert(tracker@.slots[i as int] == slots0[i as int]);
                assert(key@ == slots0[i as int].key);
            }
            let ghost prehist = hist@;
            match hist.get_node_info(&key) {
                Some(n_info) => {
                    proof {
                        assert(assoc_lookup(entries0, slots0[i as int].key.hgid) == Some(n_info@));
                    }
                    let ghost n_v = n_info@;
                    let value = StoreTree { content: None, parents: Some(n_info.parents) };
                    proof {
                        assert(value@.parents == Some(n_v.parents));
                        assert(value@ =~= hist_entry_value(
                            assoc_lookup(entries0, slots0[i as int].key.hgid)->0,
                        ));
                    }
                    tracker.record_at(i, value);
                }
                None => {
                }
            }
            proof {
                assert(hist@.queried =~= prehist.queried.push(slots0[i as int].key));
            }
        }
        i = i + 1;
        proof {
            let taken = slots0.take(i as int);
            assert(taken.drop_last() =~= prefix);
            assert(taken.last() == slots0[i - 1]);
            if slots0[i - 1].pending(requested).parents {
                assert(parents_pending_keys(taken, requested) =~= parents_pending_keys(
                    prefix,
                    requested,
                ).push(slots0[i - 1].key));
            } else {
                assert(parents_pending_keys(taken, requested) =~= parents_pending_keys(
                    prefix,
                    requested,
                ));
            }
            assert(hist@.queried =~= old(hist)@.queried + parents_pending_keys(taken, requested));
            assert(hist@ =~= (HistoryStoreView {
                queried: old(hist)@.queried + parents_pending_keys(taken, requested),
                ..old(hist)@
            }));
            assert(tracker@.slots[i - 1] == hist_stage_slot(slots0[i - 1], requested, entries0));
        }
    }
    proof {
        assert(slots0.take(n as int) =~= slots0);
        lemma_hist_stage_slots_index(slots0, requested, entries0);
        assert(tracker@.slots =~= hist_stage_slots(slots0, requested, entries0));
        assert(tracker@ =~= (PendingTrackerView {
            slots: hist_stage_slots(slots0, requested, entries0),
            ..old(tracker)@
        }));
    }
}

/// The view of an optional content log tier.
pub open spec fn opt_log_view(o: Option<IndexedLogDataStore>) -> Option<LogStoreView> {
    match o {
        Some(c) => Some(c@),
        None => None,
    }
}

/// The view of an optional history tier.
pub open spec fn opt_hist_view(o: Option<IndexedLogHistoryStore>) -> Option<HistoryStoreView> {
    match o {
        Some(c) => Some(c@),
        None => None,
    }
}

/// The view of an optional file-aux cache.
pub open spec fn opt_aux_view(o: Option<AuxStore>) -> Option<AuxStoreView> {
    match o {
        Some(c) => Some(c@),
        None => None,
    }
}

/// The view of an optional tree-aux store.
pub open spec fn opt_treeaux_view(o: Option<TreeAuxStore>) -> Option<TreeAuxStoreView> {
    match o {
        Some(c) => Some(c@),
        None => None,
    }
}

/// The view of an optional remote client.
pub open spec fn opt_remote_view(o: Option<RemoteTreeClient>) -> Option<RemoteClientView> {
    match o {
        Some(c) => Some(c@),
        None => None,
    }
}

/// The view of an optional legacy store.
pub open spec fn opt_content_view(o: Option<ContentStore>) -> Option<ContentStoreView> {
    match o {
        Some(c) => Some(c@),
        None => None,
    }
}

/// The optional cache log after write-back, where write-back is enabled
/// and the tier exists.
pub open spec fn writeback_log_opt(
    v: Option<LogStoreView>,
    enabled: bool,
    rs: Seq<RemoteTreeEntryView>,
) -> Option<LogStoreView> {
    if enabled {
        match v {
            Some(x) => Some(writeback_log(x, rs)),
            None => None,
        }
    } else {
        v
    }
}

/// The optional file-aux cache after writing back one entry's children.
pub open spec fn writeback_aux_children_opt(
    v: Option<AuxStoreView>,
    children: Seq<(Seq<u8>, AuxDataView)>,
) -> Option<AuxStoreView> {
    match v {
        Some(x) => Some(writeback_aux_children(x, children)),
        None => None,
    }
}

/// The optional file-aux cache after write-back of a whole response.
pub open spec fn writeback_aux_opt(
    v: Option<AuxStoreView>,
    rs: Seq<RemoteTreeEntryView>,
) -> Option<AuxStoreView> {
    match v {
        Some(x) => Some(writeback_aux(x, rs)),
        None => None,
    }
}

/// The optional tree-aux store after writing back one entry's children.
pub open spec fn writeback_treeaux_children_opt(
    v: Option<TreeAuxStoreView>,
    children: Seq<(Seq<u8>, AuxDataView)>,
) -> Option<TreeAuxStoreView> {
    match v {
        Some(x) => Some(writeback_treeaux_children(x, children)),
        None => None,
    }
}

/// The optional tree-aux store after write-back of a whole response.
pub open spec fn writeback_treeaux_opt(
    v: Option<TreeAuxStoreView>,
    rs: Seq<RemoteTreeEntryView>,
) -> Option<TreeAuxStoreView> {
    match v {
        Some(x) => Some(writeback_treeaux(x, rs)),
        None => None,
    }
}

/// The optional cache history tier after write-back, where parents are
/// being recorded and the tier exists.
pub open spec fn writeback_hist_opt(
    v: Option<HistoryStoreView>,
    enabled: bool,
    rs: Seq<RemoteTreeEntryView>,
) -> Option<HistoryStoreView> {
    if enabled {
        match v {
            Some(x) => Some(writeback_hist(x, rs)),
            None => None,
        }
    } else {
        v
    }
}

/// A remote response never holds more entries than keys were asked for.
pub proof fn lemma_remote_response_len(
    entries: Seq<RemoteTreeEntryView>,
    keys: Seq<KeyView>,
    child_metadata: bool,
)
    ensures
        remote_response(entries, keys, child_metadata).len() <= keys.len(),
    decreases keys.len(),
{
    if keys.len() > 0 {
        lemma_remote_response_len(entries, keys.drop_last(), child_metadata);
    }
}

/// Writes one remote entry's child metadata into the auxiliary caches:
/// file children into the file-aux cache, directory children into the
/// tree-aux store, each unless already present.
fn writeback_children(
    aux_cache: &mut Option<AuxStore>,
    tree_aux_store: &mut Option<TreeAuxStore>,
    children: &Vec<(HgId, AuxData)>,
)
    ensures
        opt_aux_view(*final(aux_cache)) == writeback_aux_children_opt(
            opt_aux_view(*old(aux_cache)),
            children_view(children@),
        ),
        opt_treeaux_view(*final(tree_aux_store)) == writeback_treeaux_children_opt(
            opt_treeaux_view(*old(tree_aux_store)),
            children_view(children@),
        ),
{
    let ghost cv = children_view(children@);
    let ghost aux0 = opt_aux_view(*aux_cache);
    let ghost treeaux0 = opt_treeaux_view(*tree_aux_store);
    let mut c: usize = 0;
    while c < children.len()
        invariant
            c <= children.len(),
            cv == children_view(children@),
            cv.len() == children@.len(),
            aux0 == opt_aux_view(*old(aux_cache)),
            treeaux0 == opt_treeaux_view(*old(tree_aux_store)),
            opt_aux_view(*aux_cache) == writeback_aux_children_opt(aux0, cv.take(c as int)),
            opt_treeaux_view(*tree_aux_store) == writeback_treeaux_children_opt(
                treeaux0,
                cv.take(c as int),
            ),
        decreases children.len() - c,
    {
        let ghost prefix = cv.take(c as int);
        proof {
            assert(cv[c as int] == (children@[c as int].0@, children@[c as int].1@));
        }
        match &children[c].1 {
            AuxData::File(f) => {
                match aux_cache {
                    Some(ac) => {
                        ac.put(&children[c].0, f);
                    },
                    None => {
                    },
                }
            },
            AuxData::Tree(t) => {
                match tree_aux_store {
                    Some(ts) => {
                        ts.put(&children[c].0, t);
                    },
                    None => {
                    },
                }
            },
        }
        c = c + 1;
        proof {
            let taken = cv.take(c as int);
            assert(taken.drop_last() =~= prefix);
            assert(taken.last() == cv[c - 1]);
        }
    }
    proof {
        assert(cv.take(children@.len() as int) =~= cv);
    }
}

/// Issues one batched remote request for every key with any pending facet,
/// then, for each returned entry: writes its child metadata into the aux
/// caches, writes its content back into the cache log where write-back is
/// enabled, records its parents in the cache history tier where parents
/// are being recorded, and merges its value into the key's slot. A broken
/// remote client fails the whole batch with a network-class error; the
/// caches and the tracker are then left as they were.
fn fetch_from_remote(
    tracker: &mut PendingTracker,
    remote: &mut RemoteTreeClient,
    cache: &mut Option<IndexedLogDataStore>,
    cache_to_local_cache: bool,
    aux_cache: &mut Option<AuxStore>,
    tree_aux_store: &mut Option<TreeAuxStore>,
    hist_cache: &mut Option<IndexedLogHistoryStore>,
    fetch_parents: bool,
    fetch_children_metadata: bool,
    fetch_tree_aux_data: bool,
    metrics: &mut FetchMetrics,
) -> (r: Result<(), StoreError>)
    ensures
        ({
            let rkeys = remote_pending_keys(old(tracker)@.slots, old(tracker)@.requested);
            let response = remote_response(old(remote)@.entries, rkeys, fetch_children_metadata);
            &&& (rkeys.len() == 0 ==> {
                &&& r is Ok
                &&& final(tracker)@ == old(tracker)@
                &&& final(remote)@ == old(remote)@
                &&& opt_log_view(*final(cache)) == opt_log_view(*old(cache))
                &&& opt_aux_view(*final(aux_cache)) == opt_aux_view(*old(aux_cache))
                &&& opt_treeaux_view(*final(tree_aux_store)) == opt_treeaux_view(
                    *old(tree_aux_store),
                )
                &&& opt_hist_view(*final(hist_cache)) == opt_hist_view(*old(hist_cache))
                &&& *final(metrics) == *old(metrics)
            })
            &&& (rkeys.len() > 0 ==> {
                &&& final(remote)@ == (RemoteClientView {
                    calls: spec_sat_add(old(remote)@.calls, 1),
                    requested: old(remote)@.requested + rkeys,
                    ..old(remote)@
                })
                &&& final(metrics).fetches == spec_sat_add(
                    old(metrics).fetches,
                    rkeys.len() as u64,
                )
                &&& final(metrics).time_ms >= old(metrics).time_ms
                &&& (old(remote)@.broken ==> {
                    &&& r == Err::<(), StoreError>(StoreError::Network)
                    &&& final(tracker)@ == old(tracker)@
                    &&& opt_log_view(*final(cache)) == opt_log_view(*old(cache))
                    &&& opt_aux_view(*final(aux_cache)) == opt_aux_view(*old(aux_cache))
                    &&& opt_treeaux_view(*final(tree_aux_store)) == opt_treeaux_view(
                        *old(tree_aux_store),
                    )
                    &&& opt_hist_view(*final(hist_cache)) == opt_hist_view(*old(hist_cache))
                    &&& final(metrics).hits == old(metrics).hits
                    &&& final(metrics).misses == old(metrics).misses
                })
                &&& (!old(remote)@.broken ==> {
                    &&& r is Ok
                    &&& final(tracker)@ == (PendingTrackerView {
                        slots: remote_stage_slots(old(tracker)@.slots, response),
                        ..old(tracker)@
                    })
                    &&& opt_log_view(*final(cache)) == writeback_log_opt(
                        opt_log_view(*old(cache)),
                        cache_to_local_cache,
                        response,
                    )
                    &&& opt_aux_view(*final(aux_cache)) == writeback_aux_opt(
                        opt_aux_view(*old(aux_cache)),
                        response,
                    )
                    &&& opt_treeaux_view(*final(tree_aux_store)) == writeback_treeaux_opt(
                        opt_treeaux_view(*old(tree_aux_store)),
                        response,
                    )
                    &&& opt_hist_view(*final(hist_cache)) == writeback_hist_opt(
                        opt_hist_view(*old(hist_cache)),
                        fetch_parents,
                        response,
                    )
                    &&& final(metrics).hits == spec_sat_add(
                        old(metrics).hits,
                        response.len() as u64,
                    )
                    &&& final(metrics).misses == spec_sat_add(
                        old(metrics).misses,
                        (rkeys.len() - response.len()) as u64,
                    )
                })
            })
        }),
{
    let ghost slots0 = tracker@.slots;
    let ghost requested = tracker@.requested;
    let n = tracker.len();
    let mut rkeys: Vec<Key> = Vec::new();
    proof {
        assert(keys_view(rkeys@) =~= remote_pending_keys(slots0.take(0), requested));
    }
    let mut i: usize = 0;
    while i < n
        invariant
            i <= n,
            n == slots0.len(),
            slots0 == old(tracker)@.slots,
            requested == old(tracker)@.requested,
            tracker@ == old(tracker)@,
            keys_view(rkeys@) == remote_pending_keys(slots0.take(i as int), requested),
        decreases n - i,
    {
        let ghost prefix = slots0.take(i as int);
        let p = tracker.pending_at(i);
        if p.content || p.parents {
            let ghost pre = rkeys@;
            rkeys.push(tracker.key_at(i).clone());
            proof {
                assert(rkeys@ =~= pre.push(rkeys@.last()));
                assert(rkeys@.last()@ == slots0[i as int].key);
                assert(keys_view(rkeys@) =~= keys_view(pre).push(slots0[i as int].key));
            }
        }
        i = i + 1;
        proof {
            let taken = slots0.take(i as int);
            assert(taken.drop_last() =~= prefix);
            assert(taken.last() == slots0[i - 1]);
            assert(keys_view(rkeys@) =~= remote_pending_keys(taken, requested));
        }
    }
    proof {
        assert(slots0.take(n as int) =~= slots0);
    }
    if rkeys.len() == 0 {
        return Ok(());
    }
    let ghost rkeys_v = keys_view(rkeys@);
    let ghost rentries0 = remote@.entries;
    let ghost response = remote_response(rentries0, rkeys_v, fetch_children_metadata);
    let start = now_millis();
    metrics.fetch(rkeys.len() as u64);
    let request = TreeAttrRequest {
        manifest_blob: true,
        parents: true,
        child_metadata: fetch_children_metadata,
        augmented_trees: fetch_tree_aux_data,
    };
    let es = match remote.fetch(&rkeys, request) {
        Ok(es) => es,
        Err(e) => {
            return Err(e);
        },
    };
    proof {
        assert(remote_entries_view(es@) == response);
        assert(response.len() == es@.len());
        lemma_remote_response_len(rentries0, rkeys_v, fetch_children_metadata);
    }
    let ghost cache0 = opt_log_view(*cache);
    let ghost aux0 = opt_aux_view(*aux_cache);
    let ghost treeaux0 = opt_treeaux_view(*tree_aux_store);
    let ghost hist0 = opt_hist_view(*hist_cache);
    let ghost remote_after = remote@;
    let ghost metrics_after = *metrics;
    proof {
        assert(remote_stage_slots(slots0, response.take(0)) == slots0);
        assert(tracker@ =~= (PendingTrackerView {
            slots: remote_stage_slots(slots0, response.take(0)),
            ..old(tracker)@
        }));
    }
    let m = es.len();
    let mut k: usize = 0;
    while k < m
        invariant
            k <= m,
            m == es@.len(),
            slots0 == old(tracker)@.slots,
            requested == old(tracker)@.requested,
            cache0 == opt_log_view(*old(cache)),
            aux0 == opt_aux_view(*old(aux_cache)),
            treeaux0 == opt_treeaux_view(*old(tree_aux_store)),
            hist0 == opt_hist_view(*old(hist_cache)),
            remote_entries_view(es@) == response,
            response.len() == m,
            remote@ == remote_after,
            *metrics == metrics_after,
            tracker@ == (PendingTrackerView {
                slots: remote_stage_slots(slots0, response.take(k as int)),
                ..old(tracker)@
            }),
            opt_log_view(*cache) == writeback_log_opt(
                cache0,
                cache_to_local_cache,
                response.take(k as int),
            ),
            opt_aux_view(*aux_cache) == writeback_aux_opt(aux0, response.take(k as int)),
            opt_treeaux_view(*tree_aux_store) == writeback_treeaux_opt(
                treeaux0,
                response.take(k as int),
            ),
            opt_hist_view(*hist_cache) == writeback_hist_opt(
                hist0,
                fetch_parents,
                response.take(k as int),
            ),
        decreases m - k,
    {
        let ghost rtaken = response.take(k as int);
        let e = es[k].clone();
        proof {
            assert(es@[k as int]@ == response[k as int]);
            assert(e@ == response[k as int]);
        }
        if aux_cache.is_some() || tree_aux_store.is_some() {
            writeback_children(aux_cache, tree_aux_store, &e.children);
            proof {
                assert(children_view(e.children@) == response[k as int].children);
            }
        } else {
            proof {
                assert(opt_aux_view(*aux_cache) is None);
                assert(opt_treeaux_view(*tree_aux_store) is None);
            }
        }
        if cache_to_local_cache {
            match cache {
                Some(c) => {
                    let entry = Entry::new(
                        e.key.clone(),
                        crate::types::clone_bytes(&e.data),
                        Metadata::none_metadata(),
                    );
                    proof {
                        assert(entry@ =~= (EntryView {
                            key: response[k as int].key,
                            data: response[k as int].data,
                            meta: Metadata { size: None, flags: None },
                        }));
                    }
                    c.put_entry(entry);
                },
                None => {
                },
            }
        }
        if fetch_parents {
            match hist_cache {
                Some(hc) => {
                    match &e.parents {
                        Some(p) => {
                            let info = NodeInfo { parents: p.clone(), linknode: HgId::null_id() };
                            proof {
                                assert(info@ =~= (NodeInfoView {
                                    parents: response[k as int].parents->0,
                                    linknode: null_hash(),
                                }));
                            }
                            hc.add(&e.key, &info);
                        },
                        None => {
                        },
                    }
                },
                None => {
                },
            }
        }
        let key = e.key.clone();
        let value = StoreTree::from_content(LazyTree::SaplingRemoteApi(e));
        proof {
            assert(value@ =~= remote_entry_value(response[k as int]));
        }
        tracker.found(&key, value);
        k = k + 1;
        proof {
            let taken = response.take(k as int);
            assert(taken.drop_last() =~= rtaken);
            assert(taken.last() == response[k - 1]);
        }
    }
    proof {
        assert(response.take(m as int) =~= response);
    }
    metrics.hit(m as u64);
    metrics.miss(sat_sub(rkeys.len() as u64, m as u64));
    let end = now_millis();
    metrics.add_time(sat_sub(end, start));
    Ok(())
}

/// One slot after the legacy stage: where content is still pending and the
/// legacy store holds the key's hash, the blob's value is merged in.
pub open spec fn legacy_stage_slot(
    s: SlotView,
    requested: TreeAttributes,
    entries: Seq<(Seq<u8>, Seq<u8>)>,
) -> SlotView {
    if s.pending(requested).content {
        match assoc_lookup(entries, s.key.hgid) {
            Some(d) => SlotView { key: s.key, value: s.value.merge(legacy_value(d)) },
            None => s,
        }
    } else {
        s
    }
}

/// Every slot after the legacy stage.
pub open spec fn legacy_stage_slots(
    slots: Seq<SlotView>,
    requested: TreeAttributes,
    entries: Seq<(Seq<u8>, Seq<u8>)>,
) -> Seq<SlotView>
    decreases slots.len(),
{
    if slots.len() == 0 {
        Seq::empty()
    } else {
        legacy_stage_slots(slots.drop_last(), requested, entries).push(
            legacy_stage_slot(slots.last(), requested, entries),
        )
    }
}

/// The legacy stage rewrites each slot independently.
pub proof fn lemma_legacy_stage_slots_index(
    slots: Seq<SlotView>,
    requested: TreeAttributes,
    entries: Seq<(Seq<u8>, Seq<u8>)>,
)
    ensures
        legacy_stage_slots(slots, requested, entries).len() == slots.len(),
        forall|i: int|
            0 <= i < slots.len() ==> legacy_stage_slots(slots, requested, entries)[i]
                == legacy_stage_slot(slots[i], requested, entries),
    decreases slots.len(),
{
    if slots.len() > 0 {
        lemma_legacy_stage_slots_index(slots.drop_last(), requested, entries);
    }
}

/// How many keys the legacy stage finds.
pub open spec fn legacy_stage_hits(
    slots: Seq<SlotView>,
    requested: TreeAttributes,
    entries: Seq<(Seq<u8>, Seq<u8>)>,
) -> int
    decreases slots.len(),
{
    if slots.len() == 0 {
        0int
    } else {
        legacy_stage_hits(slots.drop_last(), requested, entries) + (if slots.last().pending(
            requested,
        ).content && assoc_lookup(entries, slots.last().key.hgid) is Some {
            1int
        } else {
            0int
        })
    }
}

/// Queries the legacy fallback store for every slot still pending content:
/// the whole batch is prefetched at once, then each key is read, and each
/// blob found is merged into its slot. Nothing is ever written back from
/// this tier.
fn fetch_from_legacy(
    tracker: &mut PendingTracker,
    cs: &mut ContentStore,
    metrics: &mut FetchMetrics,
)
    ensures
        final(tracker)@ == (PendingTrackerView {
            slots: legacy_stage_slots(
                old(tracker)@.slots,
                old(tracker)@.requested,
                old(cs)@.entries,
            ),
            ..old(tracker)@
        }),
        final(cs)@ == (ContentStoreView {
            prefetched: old(cs)@.prefetched + content_pending_keys(
                old(tracker)@.slots,
                old(tracker)@.requested,
            ),
            ..old(cs)@
        }),
        final(metrics).fetches == spec_sat_add(
            old(metrics).fetches,
            content_pending_keys(old(tracker)@.slots, old(tracker)@.requested).len() as u64,
        ),
        final(metrics).hits == spec_sat_add(
            old(metrics).hits,
            legacy_stage_hits(old(tracker)@.slots, old(tracker)@.requested, old(cs)@.entries)
                as u64,
        ),
        final(metrics).misses == spec_sat_add(
            old(metrics).misses,
            (content_pending_keys(old(tracker)@.slots, old(tracker)@.requested).len()
                - legacy_stage_hits(
                old(tracker)@.slots,
                old(tracker)@.requested,
                old(cs)@.entries,
            )) as u64,
        ),
        final(metrics).time_ms >= old(metrics).time_ms,
{
    let ghost slots0 = tracker@.slots;
    let ghost requested = tracker@.requested;
    let ghost entries0 = cs@.entries;
    let start = now_millis();
    let n = tracker.len();
    let mut ckeys: Vec<Key> = Vec::new();
    proof {
        assert(keys_view(ckeys@) =~= content_pending_keys(slots0.take(0), requested));
    }
    let mut i: usize = 0;
    while i < n
        invariant
            i <= n,
            n == slots0.len(),
            slots0 == old(tracker)@.slots,
            requested == old(tracker)@.requested,
            tracker@ == old(tracker)@,
            keys_view(ckeys@) == content_pending_keys(slots0.take(i as int), requested),
        decreases n - i,
    {
        let ghost prefix = slots0.take(i as int);
        let p = tracker.pending_at(i);
        if p.content {
            let ghost pre = ckeys@;
            ckeys.push(tracker.key_at(i).clone());
            proof {
                assert(ckeys@ =~= pre.push(ckeys@.last()));
                assert(ckeys@.last()@ == slots0[i as int].key);
                assert(keys_view(ckeys@) =~= keys_view(pre).push(slots0[i as int].key));
            }
        }
        i = i + 1;
        proof {
            let taken = slots0.take(i as int);
            assert(taken.drop_last() =~= prefix);
            assert(taken.last() == slots0[i - 1]);
            assert(keys_view(ckeys@) =~= content_pending_keys(taken, requested));
        }
    }
    proof {
        assert(slots0.take(n as int) =~= slots0);
    }
    metrics.fetch(ckeys.len() as u64);
    let _ = cs.prefetch(&ckeys);
    proof {
        assert(cs@ =~= (ContentStoreView {
            prefetched: old(cs)@.prefetched + content_pending_keys(slots0, requested),
            ..old(cs)@
        }));
    }
    let ghost cs_after = cs@;
    let mut found_count: usize = 0;
    let mut i: usize = 0;
    while i < n
        invariant
            i <= n,
            n == slots0.len(),
            slots0 == old(tracker)@.slots,
            requested == old(tracker)@.requested,
            entries0 == old(cs)@.entries,
            cs@ == cs_after,
            cs@.entries == entries0,
            tracker@.requested == requested,
            tracker@.immediate == old(tracker)@.immediate,
            tracker@.slots.len() == n,
            forall|j: int|
                i <= j < n ==> (#[trigger] tracker@.slots[j]) == slots0[j],
            forall|j: int|
                0 <= j < i ==> (#[trigger] tracker@.slots[j]) == legacy_stage_slot(
                    slots0[j],
                    requested,
                    entries0,
                ),
            found_count == legacy_stage_hits(slots0.take(i as int), requested, entries0),
            found_count <= i,
        decreases n - i,
    {
        let ghost prefix = slots0.take(i as int);
        let pending = tracker.pending_at(i);
        if pending.content {
            let key = tracker.key_at(i).clone();
            proof {
                assert(tracker@.slots[i as int] == slots0[i as int]);
                assert(key@ == slots0[i as int].key);
            }
            match cs.get(&key) {
                Some(d) => {
                    proof {
                        assert(assoc_lookup(entries0, slots0[i as int].key.hgid) == Some(d@));
                    }
                    let value = StoreTree::from_content(LazyTree::ContentStore(d));
                    proof {
                        assert(value@ =~= legacy_value(
                            assoc_lookup(entries0, slots0[i as int].key.hgid)->0,
                        ));
                    }
                    tracker.record_at(i, value);
                    found_count = found_count + 1;
                }
                None => {
                }
            }
        }
        i = i + 1;
        proof {
            let taken = slots0.take(i as int);
            assert(taken.drop_last() =~= prefix);
            assert(taken.last() == slots0[i - 1]);
            assert(tracker@.slots[i - 1] == legacy_stage_slot(slots0[i - 1], requested, entries0));
        }
    }
    proof {
        assert(slots0.take(n as int) =~= slots0);
        lemma_legacy_stage_slots_index(slots0, requested, entries0);
        assert(tracker@.slots =~= legacy_stage_slots(slots0, requested, entries0));
        assert(tracker@ =~= (PendingTrackerView {
            slots: legacy_stage_slots(slots0, requested, entries0),
            ..old(tracker)@
        }));
    }
    metrics.hit(found_count as u64);
    let fetch_count = ckeys.len();
    metrics.miss(sat_sub(fetch_count as u64, found_count as u64));
    let end = now_millis();
    metrics.add_time(sat_sub(end, start));
    proof {
        assert(content_pending_keys(slots0, requested).len() == keys_view(ckeys@).len());
        lemma_legacy_hits_bound(slots0, requested, entries0);
    }
}

/// The legacy stage never finds more keys than it asks for.
pub proof fn lemma_legacy_hits_bound(
    slots: Seq<SlotView>,
    requested: TreeAttributes,
    entries: Seq<(Seq<u8>, Seq<u8>)>,
)
    ensures
        0 <= legacy_stage_hits(slots, requested, entries) <= content_pending_keys(
            slots,
            requested,
        ).len(),
    decreases slots.len(),
{
    if slots.len() > 0 {
        lemma_legacy_hits_bound(slots.drop_last(), requested, entries);
    }
}

/// The slots the tracker seeds for a batch: one per distinct non-sentinel
/// key, in first-occurrence order, each with nothing found yet.
pub open spec fn initial_slots(keys: Seq<KeyView>) -> Seq<SlotView>
    decreases keys.len(),
{
    if keys.len() == 0 {
        Seq::empty()
    } else {
        let front = initial_slots(keys.drop_last());
        let k = keys.last();
        if k.is_null() || slot_keys(front).contains(k) {
            front
        } else {
            front.push(SlotView { key: k, value: StoreTreeView { content: None, parents: None } })
        }
    }
}

/// The seeded slots carry exactly the tracked keys, each with an empty
/// value.
pub proof fn lemma_initial_slots_shape(keys: Seq<KeyView>)
    ensures
        slot_keys(initial_slots(keys)) == tracked_keys(keys),
        forall|i: int|
            0 <= i < initial_slots(keys).len() ==> (#[trigger] initial_slots(keys)[i]).value
                == (StoreTreeView { content: None, parents: None }),
    decreases keys.len(),
{
    if keys.len() > 0 {
        lemma_initial_slots_shape(keys.drop_last());
        let front = initial_slots(keys.drop_last());
        let k = keys.last();
        if !(k.is_null() || slot_keys(front).contains(k)) {
            assert(slot_keys(
                front.push(SlotView { key: k, value: StoreTreeView { content: None, parents: None } }),
            ) =~= slot_keys(front).push(k));
        }
        assert(slot_keys(initial_slots(keys)) =~= tracked_keys(keys));
    } else {
        assert(slot_keys(initial_slots(keys)) =~= tracked_keys(keys));
    }
}

/// Whether a fetch in this mode asks the remote tier for per-child
/// metadata.
pub open spec fn s_children_metadata(s: TreeStoreView, mode: FetchMode) -> bool {
    match s.tree_metadata_mode {
        TreeMetadataMode::Always => true,
        TreeMetadataMode::Never => false,
        TreeMetadataMode::OptIn => mode.prefetch,
    }
}

/// Whether a fetch records parents in the cache history tier.
pub open spec fn s_fetch_parents(s: TreeStoreView, attrs: TreeAttributes) -> bool {
    attrs.parents || s.prefetch_tree_parents
}

/// The slots after the cache content log was consulted.
pub open spec fn slots_after_cache_log(
    s: TreeStoreView,
    slots0: Seq<SlotView>,
    attrs: TreeAttributes,
    mode: FetchMode,
) -> Seq<SlotView> {
    if mode.local && s.indexedlog_cache is Some {
        log_stage_slots(slots0, attrs, s.indexedlog_cache->0.entries)
    } else {
        slots0
    }
}

/// The slots after both content logs were consulted.
pub open spec fn slots_after_local_log(
    s: TreeStoreView,
    slots0: Seq<SlotView>,
    attrs: TreeAttributes,
    mode: FetchMode,
) -> Seq<SlotView> {
    if mode.local && s.indexedlog_local is Some {
        log_stage_slots(slots_after_cache_log(s, slots0, attrs, mode), attrs, s.indexedlog_local->0.entries)
    } else {
        slots_after_cache_log(s, slots0, attrs, mode)
    }
}

/// The slots after the cache history tier was consulted.
pub open spec fn slots_after_hist_cache(
    s: TreeStoreView,
    slots0: Seq<SlotView>,
    attrs: TreeAttributes,
    mode: FetchMode,
) -> Seq<SlotView> {
    if mode.local && s.historystore_cache is Some {
        hist_stage_slots(slots_after_local_log(s, slots0, attrs, mode), attrs, s.historystore_cache->0.entries)
    } else {
        slots_after_local_log(s, slots0, attrs, mode)
    }
}

/// The slots after every local tier was consulted.
pub open spec fn slots_after_local(
    s: TreeStoreView,
    slots0: Seq<SlotView>,
    attrs: TreeAttributes,
    mode: FetchMode,
) -> Seq<SlotView> {
    if mode.local && s.historystore_local is Some {
        hist_stage_slots(slots_after_hist_cache(s, slots0, attrs, mode), attrs, s.historystore_local->0.entries)
    } else {
        slots_after_hist_cache(s, slots0, attrs, mode)
    }
}

/// The keys one batched remote request carries: whatever is still pending
/// after the local tiers.
pub open spec fn remote_keys_of(
    s: TreeStoreView,
    slots0: Seq<SlotView>,
    attrs: TreeAttributes,
    mode: FetchMode,
) -> Seq<KeyView> {
    remote_pending_keys(slots_after_local(s, slots0, attrs, mode), attrs)
}

/// Whether the remote client is called at all: the mode allows it, a
/// client is configured, and something is still pending.
pub open spec fn remote_runs(
    s: TreeStoreView,
    slots0: Seq<SlotView>,
    attrs: TreeAttributes,
    mode: FetchMode,
) -> bool {
    mode.remote && s.edenapi is Some && remote_keys_of(s, slots0, attrs, mode).len() > 0
}

/// Whether the batch is cut short by a whole-batch network failure.
pub open spec fn remote_fails(
    s: TreeStoreView,
    slots0: Seq<SlotView>,
    attrs: TreeAttributes,
    mode: FetchMode,
) -> bool {
    remote_runs(s, slots0, attrs, mode) && s.edenapi->0.broken
}

/// The entries the remote call returns.
pub open spec fn response_of(
    s: TreeStoreView,
    slots0: Seq<SlotView>,
    attrs: TreeAttributes,
    mode: FetchMode,
) -> Seq<RemoteTreeEntryView> {
    remote_response(
        s.edenapi->0.entries,
        remote_keys_of(s, slots0, attrs, mode),
        s_children_metadata(s, mode),
    )
}

/// The slots after the remote tier was consulted.
pub open spec fn slots_after_remote(
    s: TreeStoreView,
    slots0: Seq<SlotView>,
    attrs: TreeAttributes,
    mode: FetchMode,
) -> Seq<SlotView> {
    if remote_runs(s, slots0, attrs, mode) && !s.edenapi->0.broken {
        remote_stage_slots(slots_after_local(s, slots0, attrs, mode), response_of(s, slots0, attrs, mode))
    } else {
        slots_after_local(s, slots0, attrs, mode)
    }
}

/// Whether the legacy fallback store is consulted: the mode allows it, a
/// store is configured, and the batch was not cut short.
pub open spec fn legacy_runs(
    s: TreeStoreView,
    slots0: Seq<SlotView>,
    attrs: TreeAttributes,
    mode: FetchMode,
) -> bool {
    mode.allow_legacy && s.contentstore is Some && !remote_fails(s, slots0, attrs, mode)
}

/// The slots once every eligible tier was consulted.
pub open spec fn slots_final(
    s: TreeStoreView,
    slots0: Seq<SlotView>,
    attrs: TreeAttributes,
    mode: FetchMode,
) -> Seq<SlotView> {
    if legacy_runs(s, slots0, attrs, mode) {
        legacy_stage_slots(slots_after_remote(s, slots0, attrs, mode), attrs, s.contentstore->0.entries)
    } else {
        slots_after_remote(s, slots0, attrs, mode)
    }
}

/// The failure that cut the batch short, if one did.
pub open spec fn failure_of(
    s: TreeStoreView,
    slots0: Seq<SlotView>,
    attrs: TreeAttributes,
    mode: FetchMode,
) -> Option<StoreError> {
    if remote_fails(s, slots0, attrs, mode) {
        Some(StoreError::Network)
    } else {
        None
    }
}

/// The tracker once every eligible tier was consulted.
pub open spec fn tracker_final(
    s: TreeStoreView,
    keys: Seq<KeyView>,
    attrs: TreeAttributes,
    mode: FetchMode,
) -> PendingTrackerView {
    PendingTrackerView {
        requested: attrs,
        immediate: sentinel_items(keys),
        slots: slots_final(s, initial_slots(keys), attrs, mode),
    }
}

/// Everything one batch fetch delivers through the result channel, given
/// the store it starts from: sentinel answers, one outcome per distinct
/// key, and the failure that cut the batch short if one did.
pub open spec fn spec_fetch_results(
    s: TreeStoreView,
    keys: Seq<KeyView>,
    attrs: TreeAttributes,
    mode: FetchMode,
) -> Seq<FetchItemView> {
    results_view(
        tracker_final(s, keys, attrs, mode),
        failure_of(s, initial_slots(keys), attrs, mode),
    )
}

/// The cache content log once the local stages are done: its query log
/// grown by the keys asked of it.
pub open spec fn cache_log_mid(
    s: TreeStoreView,
    slots0: Seq<SlotView>,
    attrs: TreeAttributes,
    mode: FetchMode,
) -> Option<LogStoreView> {
    if mode.local && s.indexedlog_cache is Some {
        Some(
            LogStoreView {
                queried: s.indexedlog_cache->0.queried + content_pending_keys(slots0, attrs),
                ..s.indexedlog_cache->0
            },
        )
    } else {
        s.indexedlog_cache
    }
}

/// The cache content log after one batch fetch: its query log grown by the
/// keys asked of it, and remotely fetched entries written back where
/// write-back is enabled.
pub open spec fn cache_log_after(
    s: TreeStoreView,
    slots0: Seq<SlotView>,
    attrs: TreeAttributes,
    mode: FetchMode,
) -> Option<LogStoreView> {
    if remote_runs(s, slots0, attrs, mode) && !s.edenapi->0.broken {
        writeback_log_opt(
            cache_log_mid(s, slots0, attrs, mode),
            s.cache_to_local_cache,
            response_of(s, slots0, attrs, mode),
        )
    } else {
        cache_log_mid(s, slots0, attrs, mode)
    }
}

/// The local content log after one batch fetch: its query log grown by the
/// keys asked of it.
pub open spec fn local_log_after(
    s: TreeStoreView,
    slots0: Seq<SlotView>,
    attrs: TreeAttributes,
    mode: FetchMode,
) -> Option<LogStoreView> {
    if mode.local && s.indexedlog_local is Some {
        Some(
            LogStoreView {
                queried: s.indexedlog_local->0.queried + content_pending_keys(
                    slots_after_cache_log(s, slots0, attrs, mode),
                    attrs,
                ),
                ..s.indexedlog_local->0
            },
        )
    } else {
        s.indexedlog_local
    }
}

/// The cache history tier once the local stages are done: its query log
/// grown by the keys asked of it.
pub open spec fn hist_cache_mid(
    s: TreeStoreView,
    slots0: Seq<SlotView>,
    attrs: TreeAttributes,
    mode: FetchMode,
) -> Option<HistoryStoreView> {
    if mode.local && s.historystore_cache is Some {
        Some(
            HistoryStoreView {
                queried: s.historystore_cache->0.queried + parents_pending_keys(
                    slots_after_local_log(s, slots0, attrs, mode),
                    attrs,
                ),
                ..s.historystore_cache->0
            },
        )
    } else {
        s.historystore_cache
    }
}

/// The cache history tier after one batch fetch: its query log grown, and
/// remotely fetched parents recorded where parents are being recorded.
pub open spec fn hist_cache_after(
    s: TreeStoreView,
    slots0: Seq<SlotView>,
    attrs: TreeAttributes,
    mode: FetchMode,
) -> Option<HistoryStoreView> {
    if remote_runs(s, slots0, attrs, mode) && !s.edenapi->0.broken {
        writeback_hist_opt(
            hist_cache_mid(s, slots0, attrs, mode),
            s_fetch_parents(s, attrs),
            response_of(s, slots0, attrs, mode),
        )
    } else {
        hist_cache_mid(s, slots0, attrs, mode)
    }
}

/// The local history tier after one batch fetch: its query log grown by
/// the keys asked of it.
pub open spec fn hist_local_after(
    s: TreeStoreView,
    slots0: Seq<SlotView>,
    attrs: TreeAttributes,
    mode: FetchMode,
) -> Option<HistoryStoreView> {
    if mode.local && s.historystore_local is Some {
        Some(
            HistoryStoreView {
                queried: s.historystore_local->0.queried + parents_pending_keys(
                    slots_after_hist_cache(s, slots0, attrs, mode),
                    attrs,
                ),
                ..s.historystore_local->0
            },
        )
    } else {
        s.historystore_local
    }
}

/// The remote client after one batch fetch: one more call and the
/// requested keys logged, where it was called at all.
pub open spec fn edenapi_after(
    s: TreeStoreView,
    slots0: Seq<SlotView>,
    attrs: TreeAttributes,
    mode: FetchMode,
) -> Option<RemoteClientView> {
    if remote_runs(s, slots0, attrs, mode) {
        Some(
            RemoteClientView {
                calls: spec_sat_add(s.edenapi->0.calls, 1),
                requested: s.edenapi->0.requested + remote_keys_of(s, slots0, attrs, mode),
                ..s.edenapi->0
            },
        )
    } else {
        s.edenapi
    }
}

/// The file-aux cache after one batch fetch.
pub open spec fn aux_after(
    s: TreeStoreView,
    slots0: Seq<SlotView>,
    attrs: TreeAttributes,
    mode: FetchMode,
) -> Option<AuxStoreView> {
    if remote_runs(s, slots0, attrs, mode) && !s.edenapi->0.broken {
        writeback_aux_opt(s.aux_cache, response_of(s, slots0, attrs, mode))
    } else {
        s.aux_cache
    }
}

/// The tree-aux store after one batch fetch.
pub open spec fn treeaux_after(
    s: TreeStoreView,
    slots0: Seq<SlotView>,
    attrs: TreeAttributes,
    mode: FetchMode,
) -> Option<TreeAuxStoreView> {
    if remote_runs(s, slots0, attrs, mode) && !s.edenapi->0.broken {
        writeback_treeaux_opt(s.tree_aux_store, response_of(s, slots0, attrs, mode))
    } else {
        s.tree_aux_store
    }
}

/// The legacy store after one batch fetch: its prefetch log grown by the
/// keys asked of it, where it was consulted; never written back to.
pub open spec fn contentstore_after(
    s: TreeStoreView,
    slots0: Seq<SlotView>,
    attrs: TreeAttributes,
    mode: FetchMode,
) -> Option<ContentStoreView> {
    if legacy_runs(s, slots0, attrs, mode) {
        Some(
            ContentStoreView {
                prefetched: s.contentstore->0.prefetched + content_pending_keys(
                    slots_after_remote(s, slots0, attrs, mode),
                    attrs,
                ),
                ..s.contentstore->0
            },
        )
    } else {
        s.contentstore
    }
}

/// Every tier of the store after one batch fetch. The metrics field is
/// carried over unchanged here; the fetch contract pins the counters
/// separately, since elapsed times depend on the clock.
pub open spec fn spec_store_after(
    s: TreeStoreView,
    keys: Seq<KeyView>,
    attrs: TreeAttributes,
    mode: FetchMode,
) -> TreeStoreView {
    TreeStoreView {
        indexedlog_cache: cache_log_after(s, initial_slots(keys), attrs, mode),
        indexedlog_local: local_log_after(s, initial_slots(keys), attrs, mode),
        historystore_cache: hist_cache_after(s, initial_slots(keys), attrs, mode),
        historystore_local: hist_local_after(s, initial_slots(keys), attrs, mode),
        edenapi: edenapi_after(s, initial_slots(keys), attrs, mode),
        aux_cache: aux_after(s, initial_slots(keys), attrs, mode),
        tree_aux_store: treeaux_after(s, initial_slots(keys), attrs, mode),
        contentstore: contentstore_after(s, initial_slots(keys), attrs, mode),
        ..s
    }
}

/// Whether two counter sets agree on every count, elapsed times aside.
pub open spec fn counts_match_tier(a: FetchMetrics, b: FetchMetrics) -> bool {
    a.fetches == b.fetches && a.hits == b.hits && a.misses == b.misses
}

/// Whether two fetch counter sets agree tier-wise on every count, elapsed
/// times aside.
pub open spec fn counts_match(a: TreeStoreFetchMetrics, b: TreeStoreFetchMetrics) -> bool {
    &&& counts_match_tier(a.indexedlog_cache, b.indexedlog_cache)
    &&& counts_match_tier(a.indexedlog_local, b.indexedlog_local)
    &&& counts_match_tier(a.edenapi, b.edenapi)
    &&& counts_match_tier(a.contentstore, b.contentstore)
}

/// The counters one successful batch fetch adds, elapsed times left at
/// zero: per tier, how many keys were asked, found, and missed.
pub open spec fn local_counts(
    s: TreeStoreView,
    slots0: Seq<SlotView>,
    attrs: TreeAttributes,
    mode: FetchMode,
) -> TreeStoreFetchMetrics {
    TreeStoreFetchMetrics {
        indexedlog_cache: if mode.local && s.indexedlog_cache is Some {
            FetchMetrics {
                fetches: content_pending_keys(slots0, attrs).len() as u64,
                hits: log_stage_hits(slots0, attrs, s.indexedlog_cache->0.entries) as u64,
                misses: (content_pending_keys(slots0, attrs).len() - log_stage_hits(
                    slots0,
                    attrs,
                    s.indexedlog_cache->0.entries,
                )) as u64,
                time_ms: 0,
            }
        } else {
            FetchMetrics::spec_zero()
        },
        indexedlog_local: if mode.local && s.indexedlog_local is Some {
            FetchMetrics {
                fetches: content_pending_keys(slots_after_cache_log(s, slots0, attrs, mode), attrs).len() as u64,
                hits: log_stage_hits(
                    slots_after_cache_log(s, slots0, attrs, mode),
                    attrs,
                    s.indexedlog_local->0.entries,
                ) as u64,
                misses: (content_pending_keys(slots_after_cache_log(s, slots0, attrs, mode), attrs).len()
                    - log_stage_hits(
                    slots_after_cache_log(s, slots0, attrs, mode),
                    attrs,
                    s.indexedlog_local->0.entries,
                )) as u64,
                time_ms: 0,
            }
        } else {
            FetchMetrics::spec_zero()
        },
        edenapi: if remote_runs(s, slots0, attrs, mode) && !s.edenapi->0.broken {
            FetchMetrics {
                fetches: remote_keys_of(s, slots0, attrs, mode).len() as u64,
                hits: response_of(s, slots0, attrs, mode).len() as u64,
                misses: (remote_keys_of(s, slots0, attrs, mode).len() - response_of(
                    s,
                    slots0,
                    attrs,
                    mode,
                ).len()) as u64,
                time_ms: 0,
            }
        } else {
            FetchMetrics::spec_zero()
        },
        contentstore: if legacy_runs(s, slots0, attrs, mode) {
            FetchMetrics {
                fetches: content_pending_keys(slots_after_remote(s, slots0, attrs, mode), attrs).len() as u64,
                hits: legacy_stage_hits(
                    slots_after_remote(s, slots0, attrs, mode),
                    attrs,
                    s.contentstore->0.entries,
                ) as u64,
                misses: (content_pending_keys(slots_after_remote(s, slots0, attrs, mode), attrs).len()
                    - legacy_stage_hits(
                    slots_after_remote(s, slots0, attrs, mode),
                    attrs,
                    s.contentstore->0.entries,
                )) as u64,
                time_ms: 0,
            }
        } else {
            FetchMetrics::spec_zero()
        },
    }
}

/// The view of the whole store.
#[verifier::ext_equal]
pub struct TreeStoreView {
    pub indexedlog_local: Option<LogStoreView>,
    pub indexedlog_cache: Option<LogStoreView>,
    pub cache_to_local_cache: bool,
    pub edenapi: Option<RemoteClientView>,
    pub contentstore: Option<ContentStoreView>,
    pub aux_cache: Option<AuxStoreView>,
    pub tree_aux_store: Option<TreeAuxStoreView>,
    pub tree_metadata_mode: TreeMetadataMode,
    pub historystore_local: Option<HistoryStoreView>,
    pub historystore_cache: Option<HistoryStoreView>,
    pub prefetch_tree_parents: bool,
    pub flush_on_drop: bool,
    pub fetch_tree_aux_data: bool,
    pub metrics: TreeStoreMetrics,
}

/// The tiered tree object store: every backing tier it may consult, each
/// individually absent in a given deployment, the policy flags that shape
/// a fetch, and the lifetime metrics accumulator.
#[derive(Debug)]
pub struct TreeStore {
    /// The local content log: content created locally.
    pub indexedlog_local: Option<IndexedLogDataStore>,
    /// The cache content log: content downloaded from the remote tier.
    pub indexedlog_cache: Option<IndexedLogDataStore>,
    /// Whether remotely fetched content is written back to the cache log.
    pub cache_to_local_cache: bool,
    /// The remote network client.
    pub edenapi: Option<RemoteTreeClient>,
    /// The legacy fallback store; its use indicates the tiered stores are
    /// incomplete and should be rare.
    pub contentstore: Option<ContentStore>,
    /// The cache of per-child file metadata.
    pub aux_cache: Option<AuxStore>,
    /// The store of per-child directory metadata.
    pub tree_aux_store: Option<TreeAuxStore>,
    /// When remote fetches ask for extra per-child metadata.
    pub tree_metadata_mode: TreeMetadataMode,
    /// The local history tier.
    pub historystore_local: Option<IndexedLogHistoryStore>,
    /// The cache history tier.
    pub historystore_cache: Option<IndexedLogHistoryStore>,
    /// Whether remotely fetched parents are recorded even when parents were
    /// not requested.
    pub prefetch_tree_parents: bool,
    /// Whether teardown flushes the store.
    pub flush_on_drop: bool,
    /// Whether remote fetches ask for augmented tree metadata.
    pub fetch_tree_aux_data: bool,
    /// The lifetime counters, published and reset at flush.
    pub metrics: TreeStoreMetrics,
}

impl View for TreeStore {
    type V = TreeStoreView;

    open spec fn view(&self) -> TreeStoreView {
        TreeStoreView {
            indexedlog_local: opt_log_view(self.indexedlog_local),
            indexedlog_cache: opt_log_view(self.indexedlog_cache),
            cache_to_local_cache: self.cache_to_local_cache,
            edenapi: opt_remote_view(self.edenapi),
            contentstore: opt_content_view(self.contentstore),
            aux_cache: opt_aux_view(self.aux_cache),
            tree_aux_store: opt_treeaux_view(self.tree_aux_store),
            tree_metadata_mode: self.tree_metadata_mode,
            historystore_local: opt_hist_view(self.historystore_local),
            historystore_cache: opt_hist_view(self.historystore_cache),
            prefetch_tree_parents: self.prefetch_tree_parents,
            flush_on_drop: self.flush_on_drop,
            fetch_tree_aux_data: self.fetch_tree_aux_data,
            metrics: self.metrics,
        }
    }
}

impl TreeStore {
    /// A store with no tier configured: every fetch degrades gracefully,
    /// treating each missing tier as a permanent miss.
    pub fn empty() -> (r: TreeStore)
        ensures
            r@ == (TreeStoreView {
                indexedlog_local: None,
                indexedlog_cache: None,
                cache_to_local_cache: true,
                edenapi: None,
                contentstore: None,
                aux_cache: None,
                tree_aux_store: None,
                tree_metadata_mode: TreeMetadataMode::Never,
                historystore_local: None,
                historystore_cache: None,
                prefetch_tree_parents: false,
                flush_on_drop: true,
                fetch_tree_aux_data: false,
                metrics: TreeStoreMetrics::spec_zero(),
            }),
    {
        let r = TreeStore {
            indexedlog_local: None,
            indexedlog_cache: None,
            cache_to_local_cache: true,
            edenapi: None,
            contentstore: None,
            aux_cache: None,
            tree_aux_store: None,
            tree_metadata_mode: TreeMetadataMode::Never,
            historystore_local: None,
            historystore_cache: None,
            prefetch_tree_parents: false,
            flush_on_drop: true,
            fetch_tree_aux_data: false,
            metrics: TreeStoreMetrics::zero(),
        };
        proof {
            assert(r@ =~= (TreeStoreView {
                indexedlog_local: None,
                indexedlog_cache: None,
                cache_to_local_cache: true,
                edenapi: None,
                contentstore: None,
                aux_cache: None,
                tree_aux_store: None,
                tree_metadata_mode: TreeMetadataMode::Never,
                historystore_local: None,
                historystore_cache: None,
                prefetch_tree_parents: false,
                flush_on_drop: true,
                fetch_tree_aux_data: false,
                metrics: TreeStoreMetrics::spec_zero(),
            }));
        }
        r
    }

    /// Queries every local tier that the mode admits, in priority order:
    /// cache content log, local content log, cache history, local history.
    fn local_stages(
        &mut self,
        tracker: &mut PendingTracker,
        fetch_mode: FetchMode,
        local: &mut TreeStoreFetchMetrics,
    )
        ensures
            final(tracker)@ == (PendingTrackerView {
                slots: slots_after_local(
                    old(self)@,
                    old(tracker)@.slots,
                    old(tracker)@.requested,
                    fetch_mode,
                ),
                ..old(tracker)@
            }),
            final(self)@ == (TreeStoreView {
                indexedlog_cache: cache_log_mid(
                    old(self)@,
                    old(tracker)@.slots,
                    old(tracker)@.requested,
                    fetch_mode,
                ),
                indexedlog_local: local_log_after(
                    old(self)@,
                    old(tracker)@.slots,
                    old(tracker)@.requested,
                    fetch_mode,
                ),
                historystore_cache: hist_cache_mid(
                    old(self)@,
                    old(tracker)@.slots,
                    old(tracker)@.requested,
                    fetch_mode,
                ),
                historystore_local: hist_local_after(
                    old(self)@,
                    old(tracker)@.slots,
                    old(tracker)@.requested,
                    fetch_mode,
                ),
                ..old(self)@
            }),
            counts_match_tier(
                final(local).indexedlog_cache,
                old(local).indexedlog_cache.spec_merged(
                    local_counts(
                        old(self)@,
                        old(tracker)@.slots,
                        old(tracker)@.requested,
                        fetch_mode,
                    ).indexedlog_cache,
                ),
            ),
            counts_match_tier(
                final(local).indexedlog_local,
                old(local).indexedlog_local.spec_merged(
                    local_counts(
                        old(self)@,
                        old(tracker)@.slots,
                        old(tracker)@.requested,
                        fetch_mode,
                    ).indexedlog_local,
                ),
            ),
            final(local).edenapi == old(local).edenapi,
            final(local).contentstore == old(local).contentstore,
    {
        let ghost s0 = self@;
        let ghost sl0 = tracker@.slots;
        let ghost requested = tracker@.requested;
        if fetch_mode.local {
            match &mut self.indexedlog_cache {
                Some(c) => {
                    fetch_from_log(tracker, c, &mut local.indexedlog_cache);
                },
                None => {
                },
            }
        }
        proof {
            assert(tracker@.slots == slots_after_cache_log(s0, sl0, requested, fetch_mode));
            assert(opt_log_view(self.indexedlog_cache) == cache_log_mid(
                s0,
                sl0,
                requested,
                fetch_mode,
            ));
            assert(counts_match_tier(
                local.indexedlog_cache,
                old(local).indexedlog_cache.spec_merged(
                    local_counts(s0, sl0, requested, fetch_mode).indexedlog_cache,
                ),
            ));
        }
        if fetch_mode.local {
            match &mut self.indexedlog_local {
                Some(c) => {
                    fetch_from_log(tracker, c, &mut local.indexedlog_local);
                },
                None => {
                },
            }
        }
        proof {
            assert(tracker@.slots == slots_after_local_log(s0, sl0, requested, fetch_mode));
            assert(opt_log_view(self.indexedlog_local) == local_log_after(
                s0,
                sl0,
                requested,
                fetch_mode,
            ));
            assert(counts_match_tier(
                local.indexedlog_local,
                old(local).indexedlog_local.spec_merged(
                    local_counts(s0, sl0, requested, fetch_mode).indexedlog_local,
                ),
            ));
        }
        if fetch_mode.local {
            match &mut self.historystore_cache {
                Some(h) => {
                    fetch_from_history(tracker, h);
                },
                None => {
                },
            }
        }
        proof {
            assert(tracker@.slots == slots_after_hist_cache(s0, sl0, requested, fetch_mode));
            assert(opt_hist_view(self.historystore_cache) == hist_cache_mid(
                s0,
                sl0,
                requested,
                fetch_mode,
            ));
        }
        if fetch_mode.local {
            match &mut self.historystore_local {
                Some(h) => {
                    fetch_from_history(tracker, h);
                },
                None => {
                },
            }
        }
        proof {
            assert(tracker@.slots == slots_after_local(s0, sl0, requested, fetch_mode));
            assert(opt_hist_view(self.historystore_local) == hist_local_after(
                s0,
                sl0,
                requested,
                fetch_mode,
            ));
            assert(self@ =~= (TreeStoreView {
                indexedlog_cache: cache_log_mid(s0, sl0, requested, fetch_mode),
                indexedlog_local: local_log_after(s0, sl0, requested, fetch_mode),
                historystore_cache: hist_cache_mid(s0, sl0, requested, fetch_mode),
                historystore_local: hist_local_after(s0, sl0, requested, fetch_mode),
                ..s0
            }));
        }
    }

    /// Satisfies a batch of keys with the requested facets by walking the
    /// tiers in priority order, asking each only for what is still
    /// pending, merging partial answers per key, back-filling the faster
    /// tiers from the remote response, and reporting everything still
    /// unsatisfied as not found. Sentinel keys are answered with the
    /// canonical empty value without touching any tier. A whole-batch
    /// network failure cuts the batch short: outcomes already satisfied
    /// are still delivered, followed by the failure, and the lifetime
    /// counters are left untouched.
    #[verifier::rlimit(100)]
    pub fn fetch_batch(
        &mut self,
        reqs: Vec<Key>,
        attrs: TreeAttributes,
        fetch_mode: FetchMode,
    ) -> (results: FetchResults)
        ensures
            results@ == spec_fetch_results(old(self)@, keys_view(reqs@), attrs, fetch_mode),
            final(self)@ == (TreeStoreView {
                metrics: final(self)@.metrics,
                ..spec_store_after(old(self)@, keys_view(reqs@), attrs, fetch_mode)
            }),
            remote_fails(old(self)@, initial_slots(keys_view(reqs@)), attrs, fetch_mode)
                ==> final(self)@.metrics == old(self)@.metrics,
            !remote_fails(old(self)@, initial_slots(keys_view(reqs@)), attrs, fetch_mode)
                ==> counts_match(
                final(self)@.metrics.fetch,
                old(self)@.metrics.fetch.spec_merged(
                    local_counts(
                        old(self)@,
                        initial_slots(keys_view(reqs@)),
                        attrs,
                        fetch_mode,
                    ),
                ),
            ),
    {
        let ghost s0 = self@;
        let ghost keys_v = keys_view(reqs@);
        let ghost sl0 = initial_slots(keys_v);
        let fetch_children_metadata = match self.tree_metadata_mode {
            TreeMetadataMode::Always => true,
            TreeMetadataMode::Never => false,
            TreeMetadataMode::OptIn => fetch_mode.prefetch,
        };
        let fetch_parents = attrs.parents || self.prefetch_tree_parents;
        let mut tracker = PendingTracker::new(&reqs, attrs);
        proof {
            lemma_initial_slots_shape(keys_v);
            assert(tracker@.slots.len() == initial_slots(keys_v).len()) by {
                assert(slot_keys(tracker@.slots).len() == tracker@.slots.len());
                assert(slot_keys(initial_slots(keys_v)).len() == initial_slots(keys_v).len());
            }
            assert forall|i: int|
                0 <= i < tracker@.slots.len() implies #[trigger] tracker@.slots[i]
                =~~= initial_slots(keys_v)[i] by {
                assert(slot_keys(tracker@.slots)[i] == tracker@.slots[i].key);
                assert(slot_keys(initial_slots(keys_v))[i] == initial_slots(keys_v)[i].key);
                assert(tracker@.slots[i].key == tracked_keys(keys_v)[i]);
                assert(initial_slots(keys_v)[i].key == tracked_keys(keys_v)[i]);
            }
            assert(tracker@.slots =~~= initial_slots(keys_v));
            assert(tracker@ =~= (PendingTrackerView {
                requested: attrs,
                immediate: sentinel_items(keys_v),
                slots: initial_slots(keys_v),
            }));
        }
        let mut local = TreeStoreFetchMetrics::zero();
        self.local_stages(&mut tracker, fetch_mode, &mut local);
        let mut failure: Option<StoreError> = None;
        if fetch_mode.remote {
            match &mut self.edenapi {
                Some(rc) => {
                    match fetch_from_remote(
                        &mut tracker,
                        rc,
                        &mut self.indexedlog_cache,
                        self.cache_to_local_cache,
                        &mut self.aux_cache,
                        &mut self.tree_aux_store,
                        &mut self.historystore_cache,
                        fetch_parents,
                        fetch_children_metadata,
                        self.fetch_tree_aux_data,
                        &mut local.edenapi,
                    ) {
                        Ok(()) => {
                        },
                        Err(e) => {
                            failure = Some(e);
                        },
                    }
                },
                None => {
                },
            }
        }
        proof {
            assert(tracker@.slots == slots_after_remote(s0, sl0, attrs, fetch_mode));
            assert(failure == failure_of(s0, sl0, attrs, fetch_mode));
            assert(opt_log_view(self.indexedlog_cache) == cache_log_after(
                s0,
                sl0,
                attrs,
                fetch_mode,
            ));
            assert(opt_hist_view(self.historystore_cache) == hist_cache_after(
                s0,
                sl0,
                attrs,
                fetch_mode,
            ));
            assert(opt_remote_view(self.edenapi) == edenapi_after(s0, sl0, attrs, fetch_mode));
            assert(opt_aux_view(self.aux_cache) == aux_after(s0, sl0, attrs, fetch_mode));
            assert(opt_treeaux_view(self.tree_aux_store) == treeaux_after(
                s0,
                sl0,
                attrs,
                fetch_mode,
            ));
        }
        if failure.is_none() && fetch_mode.allow_legacy {
            match &mut self.contentstore {
                Some(cs) => {
                    fetch_from_legacy(&mut tracker, cs, &mut local.contentstore);
                },
                None => {
                },
            }
        }
        proof {
            assert(tracker@.slots == slots_final(s0, sl0, attrs, fetch_mode));
            assert(opt_content_view(self.contentstore) == contentstore_after(
                s0,
                sl0,
                attrs,
                fetch_mode,
            ));
            assert(tracker@ =~= tracker_final(s0, keys_v, attrs, fetch_mode));
        }
        if failure.is_none() {
            proof {
                assert(counts_match(local, local_counts(s0, sl0, attrs, fetch_mode)));
            }
            self.metrics.fetch.merge_from(&local);
        }
        let results = tracker.into_results(failure);
        proof {
            assert(results@ == spec_fetch_results(s0, keys_v, attrs, fetch_mode));
            assert(self@ =~= (TreeStoreView {
                metrics: self@.metrics,
                ..spec_store_after(s0, keys_v, attrs, fetch_mode)
            }));
        }
        results
    }
}

/// A content log stage keeps every slot's key, never drops a facet, and
/// never un-finishes a finished slot.
pub proof fn lemma_log_stage_preserves(
    slots: Seq<SlotView>,
    requested: TreeAttributes,
    entries: Seq<EntryView>,
)
    ensures
        log_stage_slots(slots, requested, entries).len() == slots.len(),
        forall|i: int|
            0 <= i < slots.len() ==> (#[trigger] log_stage_slots(slots, requested, entries)[i]).key
                == slots[i].key,
        forall|i: int|
            0 <= i < slots.len() ==> (#[trigger] log_stage_slots(slots, requested, entries)[i]).value.attrs().contains(
                slots[i].value.attrs(),
            ),
        forall|i: int|
            0 <= i < slots.len() && slots[i].done(requested) ==> (#[trigger] log_stage_slots(
                slots,
                requested,
                entries,
            )[i]).done(requested),
{
    lemma_log_stage_slots_index(slots, requested, entries);
}

/// A history stage keeps every slot's key, never drops a facet, and never
/// un-finishes a finished slot.
pub proof fn lemma_hist_stage_preserves(
    slots: Seq<SlotView>,
    requested: TreeAttributes,
    entries: Seq<(Seq<u8>, NodeInfoView)>,
)
    ensures
        hist_stage_slots(slots, requested, entries).len() == slots.len(),
        forall|i: int|
            0 <= i < slots.len() ==> (#[trigger] hist_stage_slots(slots, requested, entries)[i]).key
                == slots[i].key,
        forall|i: int|
            0 <= i < slots.len() ==> (#[trigger] hist_stage_slots(slots, requested, entries)[i]).value.attrs().contains(
                slots[i].value.attrs(),
            ),
        forall|i: int|
            0 <= i < slots.len() && slots[i].done(requested) ==> (#[trigger] hist_stage_slots(
                slots,
                requested,
                entries,
            )[i]).done(requested),
{
    lemma_hist_stage_slots_index(slots, requested, entries);
}

/// The legacy stage keeps every slot's key, never drops a facet, and never
/// un-finishes a finished slot.
pub proof fn lemma_legacy_stage_preserves(
    slots: Seq<SlotView>,
    requested: TreeAttributes,
    entries: Seq<(Seq<u8>, Seq<u8>)>,
)
    ensures
        legacy_stage_slots(slots, requested, entries).len() == slots.len(),
        forall|i: int|
            0 <= i < slots.len() ==> (#[trigger] legacy_stage_slots(slots, requested, entries)[i]).key
                == slots[i].key,
        forall|i: int|
            0 <= i < slots.len() ==> (#[trigger] legacy_stage_slots(slots, requested, entries)[i]).value.attrs().contains(
                slots[i].value.attrs(),
            ),
        forall|i: int|
            0 <= i < slots.len() && slots[i].done(requested) ==> (#[trigger] legacy_stage_slots(
                slots,
                requested,
                entries,
            )[i]).done(requested),
{
    lemma_legacy_stage_slots_index(slots, requested, entries);
}

/// The remote stage keeps every slot's key, never drops a facet, and never
/// un-finishes a finished slot.
pub proof fn lemma_remote_stage_preserves(
    slots: Seq<SlotView>,
    requested: TreeAttributes,
    rs: Seq<RemoteTreeEntryView>,
)
    ensures
        remote_stage_slots(slots, rs).len() == slots.len(),
        forall|i: int|
            0 <= i < slots.len() ==> (#[trigger] remote_stage_slots(slots, rs)[i]).key
                == slots[i].key,
        forall|i: int|
            0 <= i < slots.len() ==> (#[trigger] remote_stage_slots(slots, rs)[i]).value.attrs().contains(
                slots[i].value.attrs(),
            ),
        forall|i: int|
            0 <= i < slots.len() && slots[i].done(requested) ==> (#[trigger] remote_stage_slots(
                slots,
                rs,
            )[i]).done(requested),
    decreases rs.len(),
{
    if rs.len() > 0 {
        lemma_remote_stage_preserves(slots, requested, rs.drop_last());
        let mid = remote_stage_slots(slots, rs.drop_last());
        let e = rs.last();
        match find_slot(mid, e.key) {
            Some(i) => {
                crate::fetch::lemma_find_slot_some(mid, e.key);
            },
            None => {
            },
        }
    }
}

/// The whole waterfall keeps every slot's key, never drops a facet, and
/// never un-finishes a finished slot.
pub proof fn lemma_chain_preserves(
    s: TreeStoreView,
    slots0: Seq<SlotView>,
    attrs: TreeAttributes,
    mode: FetchMode,
)
    ensures
        slots_final(s, slots0, attrs, mode).len() == slots0.len(),
        forall|i: int|
            0 <= i < slots0.len() ==> (#[trigger] slots_final(s, slots0, attrs, mode)[i]).key
                == slots0[i].key,
        forall|i: int|
            0 <= i < slots0.len() ==> (#[trigger] slots_final(s, slots0, attrs, mode)[i]).value.attrs().contains(
                slots0[i].value.attrs(),
            ),
        forall|i: int|
            0 <= i < slots0.len() && slots0[i].done(attrs) ==> (#[trigger] slots_final(
                s,
                slots0,
                attrs,
                mode,
            )[i]).done(attrs),
{
    let s1 = slots_after_cache_log(s, slots0, attrs, mode);
    let s2 = slots_after_local_log(s, slots0, attrs, mode);
    let s3 = slots_after_hist_cache(s, slots0, attrs, mode);
    let s4 = slots_after_local(s, slots0, attrs, mode);
    let s5 = slots_after_remote(s, slots0, attrs, mode);
    if mode.local && s.indexedlog_cache is Some {
        lemma_log_stage_preserves(slots0, attrs, s.indexedlog_cache->0.entries);
    }
    if mode.local && s.indexedlog_local is Some {
        lemma_log_stage_preserves(s1, attrs, s.indexedlog_local->0.entries);
    }
    if mode.local && s.historystore_cache is Some {
        lemma_hist_stage_preserves(s2, attrs, s.historystore_cache->0.entries);
    }
    if mode.local && s.historystore_local is Some {
        lemma_hist_stage_preserves(s3, attrs, s.historystore_local->0.entries);
    }
    if remote_runs(s, slots0, attrs, mode) && !s.edenapi->0.broken {
        lemma_remote_stage_preserves(s4, attrs, response_of(s, slots0, attrs, mode));
    }
    if legacy_runs(s, slots0, attrs, mode) {
        lemma_legacy_stage_preserves(s5, attrs, s.contentstore->0.entries);
    }
}

/// A key as the legacy interfaces pass it: by identity, or by a raw
/// content address.
#[derive(Debug, PartialEq, Eq)]
pub enum StoreKey {
    HgId(Key),
    Content(HgId),
}

impl Clone for StoreKey {
    fn clone(&self) -> (r: StoreKey)
        ensures
            r@ == self@,
    {
        match self {
            StoreKey::HgId(k) => StoreKey::HgId(k.clone()),
            StoreKey::Content(h) => StoreKey::Content(h.clone()),
        }
    }
}

/// The view of a `StoreKey`.
#[verifier::ext_equal]
pub enum StoreKeyView {
    HgId(KeyView),
    Content(Seq<u8>),
}

impl View for StoreKey {
    type V = StoreKeyView;

    open spec fn view(&self) -> StoreKeyView {
        match self {
            StoreKey::HgId(k) => StoreKeyView::HgId(k@),
            StoreKey::Content(h) => StoreKeyView::Content(h@),
        }
    }
}

impl StoreKey {
    /// The identity key, where this is one.
    pub fn maybe_into_key(self) -> (r: Option<Key>)
        ensures
            match r {
                Some(k) => self@ == StoreKeyView::HgId(k@),
                None => !(self@ is HgId),
            },
    {
        match self {
            StoreKey::HgId(k) => Some(k),
            StoreKey::Content(_h) => None,
        }
    }
}

/// What a legacy read returns: the value, or the key that was missed.
#[derive(Debug, PartialEq, Eq)]
pub enum StoreResult<T> {
    Found(T),
    NotFound(StoreKey),
}

/// A whole-object write: the new bytes for a key, with no delta base. The
/// store only accepts whole objects; a delta against a previous version is
/// rejected.
#[derive(Debug, PartialEq, Eq)]
pub struct Delta {
    pub data: Vec<u8>,
    pub base: Option<Key>,
    pub key: Key,
}

/// Where a repack-era write is directed.
#[derive(Clone, Copy, Debug, PartialEq, Eq, Structural)]
pub enum RepackLocation {
    Local,
    Shared,
}

/// What one flush reports: the counters to hand to the metrics sink, and
/// whether every tier flushed cleanly. The flush is best-effort: an early
/// tier's failure never stops the later tiers from being flushed, and the
/// counters are published and reset either way.
#[derive(Debug)]
pub struct FlushReport {
    pub counters: Vec<(crate::metrics::TierId, crate::metrics::CounterKind, u64)>,
    pub error: Option<StoreError>,
}

/// The content log view after a flush: unflushed writes forced down unless
/// the flush fault was injected.
pub open spec fn log_flushed(v: Option<LogStoreView>) -> Option<LogStoreView> {
    match v {
        Some(x) => if x.fail_flush {
            Some(x)
        } else {
            Some(LogStoreView { unflushed: 0, ..x })
        },
        None => None,
    }
}

/// The history tier view after a flush.
pub open spec fn hist_flushed(v: Option<HistoryStoreView>) -> Option<HistoryStoreView> {
    match v {
        Some(x) => if x.fail_flush {
            Some(x)
        } else {
            Some(HistoryStoreView { unflushed: 0, ..x })
        },
        None => None,
    }
}

/// The tree-aux store view after a flush.
pub open spec fn treeaux_flushed(v: Option<TreeAuxStoreView>) -> Option<TreeAuxStoreView> {
    match v {
        Some(x) => if x.fail_flush {
            Some(x)
        } else {
            Some(TreeAuxStoreView { unflushed: 0, ..x })
        },
        None => None,
    }
}

/// Whether any configured flushable tier is set to fail its flush.
pub open spec fn any_flush_fails(s: TreeStoreView) -> bool {
    ||| (s.indexedlog_local matches Some(x) && x.fail_flush)
    ||| (s.indexedlog_cache matches Some(x) && x.fail_flush)
    ||| (s.tree_aux_store matches Some(x) && x.fail_flush)
    ||| (s.historystore_local matches Some(x) && x.fail_flush)
    ||| (s.historystore_cache matches Some(x) && x.fail_flush)
}

impl TreeStore {
    /// Appends whole objects to the local content log, and nowhere else.
    /// Without a local log the writes are dropped.
    pub fn write_batch(&mut self, entries: Vec<Entry>)
        ensures
            final(self)@ == (TreeStoreView {
                indexedlog_local: (match old(self)@.indexedlog_local {
                    Some(v) => Some(writeback_entries(v, entries@.map_values(|e: Entry| e@))),
                    None => None,
                }),
                ..old(self)@
            }),
    {
        let ghost evs = entries@.map_values(|e: Entry| e@);
        match &mut self.indexedlog_local {
            Some(log) => {
                let ghost log0 = log@;
                proof {
                    assert(evs.take(0) =~= Seq::<EntryView>::empty());
                    assert(log@ == writeback_entries(log0, evs.take(0)));
                }
                let mut entries = entries;
                let n = entries.len();
                let mut i: usize = 0;
                while i < n
                    invariant
                        i <= n,
                        n == entries.len(),
                        evs == entries@.map_values(|e: Entry| e@),
                        evs.len() == n,
                        log@ == writeback_entries(log0, evs.take(i as int)),
                    decreases n - i,
                {
                    let ghost prefix = evs.take(i as int);
                    let e = entries[i].clone();
                    proof {
                        assert(e@ == evs[i as int]);
                    }
                    log.put_entry(e);
                    i = i + 1;
                    proof {
                        let taken = evs.take(i as int);
                        assert(taken.drop_last() =~= prefix);
                        assert(taken.last() == evs[i - 1]);
                    }
                }
                proof {
                    assert(evs.take(n as int) =~= evs);
                    assert(self@ =~= (TreeStoreView {
                        indexedlog_local: Some(writeback_entries(log0, evs)),
                        ..old(self)@
                    }));
                }
            },
            None => {
                proof {
                    assert(self@ =~= (TreeStoreView { ..old(self)@ }));
                }
            },
        }
    }

    /// Accepts one whole-object write. A delta with a non-trivial base is
    /// rejected: this store only accepts whole objects.
    pub fn add(&mut self, delta: Delta, metadata: Metadata) -> (r: Result<(), StoreError>)
        ensures
            delta.base is Some ==> r == Err::<(), StoreError>(StoreError::DeltaBaseUnsupported)
                && final(self)@ == old(self)@,
            delta.base is None ==> r == Ok::<(), StoreError>(()) && final(self)@ == (TreeStoreView {
                indexedlog_local: (match old(self)@.indexedlog_local {
                    Some(v) => Some(writeback_entries(
                        v,
                        seq![EntryView { key: delta.key@, data: delta.data@, meta: metadata }],
                    )),
                    None => None,
                }),
                ..old(self)@
            }),
    {
        match delta.base {
            Some(_b) => Err(StoreError::DeltaBaseUnsupported),
            None => {
                let entry = Entry::new(delta.key, delta.data, metadata);
                let ghost ev = entry@;
                let mut batch: Vec<Entry> = Vec::new();
                batch.push(entry);
                proof {
                    assert(batch@.map_values(|e: Entry| e@) =~= seq![ev]);
                }
                self.write_batch(batch);
                Ok(())
            },
        }
    }

    /// Flushes every tier that buffers in memory, continuing past any
    /// tier's failure to flush the rest, then publishes the lifetime
    /// counters for the metrics sink and resets them to zero. The reported
    /// error, if any, is the last tier failure seen.
    #[verifier::rlimit(50)]
    pub fn flush(&mut self) -> (r: FlushReport)
        ensures
            final(self)@ == (TreeStoreView {
                indexedlog_local: log_flushed(old(self)@.indexedlog_local),
                indexedlog_cache: log_flushed(old(self)@.indexedlog_cache),
                tree_aux_store: treeaux_flushed(old(self)@.tree_aux_store),
                historystore_local: hist_flushed(old(self)@.historystore_local),
                historystore_cache: hist_flushed(old(self)@.historystore_cache),
                metrics: TreeStoreMetrics::spec_zero(),
                ..old(self)@
            }),
            r.counters@ == old(self)@.metrics.spec_counters(),
            r.error is Some <==> any_flush_fails(old(self)@),
    {
        let mut error: Option<StoreError> = None;
        match &mut self.indexedlog_local {
            Some(log) => {
                match log.flush_log() {
                    Ok(()) => {
                    },
                    Err(e) => {
                        error = Some(e);
                    },
                }
            },
            None => {
            },
        }
        match &mut self.indexedlog_cache {
            Some(log) => {
                match log.flush_log() {
                    Ok(()) => {
                    },
                    Err(e) => {
                        error = Some(e);
                    },
                }
            },
            None => {
            },
        }
        match &mut self.tree_aux_store {
            Some(ta) => {
                match ta.flush() {
                    Ok(()) => {
                    },
                    Err(e) => {
                        error = Some(e);
                    },
                }
            },
            None => {
            },
        }
        match &mut self.historystore_local {
            Some(h) => {
                match h.flush() {
                    Ok(()) => {
                    },
                    Err(e) => {
                        error = Some(e);
                    },
                }
            },
            None => {
            },
        }
        match &mut self.historystore_cache {
            Some(h) => {
                match h.flush() {
                    Ok(()) => {
                    },
                    Err(e) => {
                        error = Some(e);
                    },
                }
            },
            None => {
            },
        }
        let counters = self.metrics.counters();
        self.metrics = TreeStoreMetrics::zero();
        proof {
            assert(self@ =~= (TreeStoreView {
                indexedlog_local: log_flushed(old(self)@.indexedlog_local),
                indexedlog_cache: log_flushed(old(self)@.indexedlog_cache),
                tree_aux_store: treeaux_flushed(old(self)@.tree_aux_store),
                historystore_local: hist_flushed(old(self)@.historystore_local),
                historystore_cache: hist_flushed(old(self)@.historystore_cache),
                metrics: TreeStoreMetrics::spec_zero(),
                ..old(self)@
            }));
        }
        FlushReport { counters, error }
    }

    /// Reloads the legacy store's view of its backing data, then flushes.
    pub fn refresh(&mut self) -> (r: FlushReport)
        ensures
            final(self)@ == (TreeStoreView {
                indexedlog_local: log_flushed(old(self)@.indexedlog_local),
                indexedlog_cache: log_flushed(old(self)@.indexedlog_cache),
                tree_aux_store: treeaux_flushed(old(self)@.tree_aux_store),
                historystore_local: hist_flushed(old(self)@.historystore_local),
                historystore_cache: hist_flushed(old(self)@.historystore_cache),
                contentstore: (match old(self)@.contentstore {
                    Some(c) => Some(ContentStoreView {
                        refreshes: spec_sat_add(c.refreshes, 1),
                        ..c
                    }),
                    None => None,
                }),
                metrics: TreeStoreMetrics::spec_zero(),
                ..old(self)@
            }),
            r.counters@ == old(self)@.metrics.spec_counters(),
            r.error is Some <==> any_flush_fails(old(self)@),
    {
        match &mut self.contentstore {
            Some(cs) => {
                cs.refresh();
            },
            None => {
            },
        }
        let report = self.flush();
        proof {
            assert(self@ =~= (TreeStoreView {
                indexedlog_local: log_flushed(old(self)@.indexedlog_local),
                indexedlog_cache: log_flushed(old(self)@.indexedlog_cache),
                tree_aux_store: treeaux_flushed(old(self)@.tree_aux_store),
                historystore_local: hist_flushed(old(self)@.historystore_local),
                historystore_cache: hist_flushed(old(self)@.historystore_cache),
                contentstore: (match old(self)@.contentstore {
                    Some(c) => Some(ContentStoreView {
                        refreshes: spec_sat_add(c.refreshes, 1),
                        ..c
                    }),
                    None => None,
                }),
                metrics: TreeStoreMetrics::spec_zero(),
                ..old(self)@
            }));
        }
        report
    }
}

/// The local log after a sequence of whole-object writes.
pub open spec fn writeback_entries(v: LogStoreView, es: Seq<EntryView>) -> LogStoreView
    decreases es.len(),
{
    if es.len() == 0 {
        v
    } else {
        let front = writeback_entries(v, es.drop_last());
        let e = es.last();
        if log_lookup(front.entries, e.key.hgid) is Some {
            front
        } else {
            LogStoreView {
                entries: front.entries.push(e),
                unflushed: spec_sat_add(front.unflushed, 1),
                ..front
            }
        }
    }
}

/// The one terminal outcome a singleton batch produces for its key.
pub open spec fn singleton_outcome(
    s: TreeStoreView,
    k: KeyView,
    attrs: TreeAttributes,
    mode: FetchMode,
) -> FetchItemView {
    if k.is_null() {
        FetchItemView::Found(k, canonical_empty_view())
    } else {
        let slot = slots_final(s, initial_slots(seq![k]), attrs, mode)[0];
        if remote_fails(s, initial_slots(seq![k]), attrs, mode) {
            FetchItemView::Failed(StoreError::Network)
        } else if slot.done(attrs) {
            FetchItemView::Found(k, slot.value.mask(attrs))
        } else {
            FetchItemView::NotFound(k)
        }
    }
}

/// A batch with no keys produces no outcomes.
pub proof fn lemma_empty_batch(s: TreeStoreView, attrs: TreeAttributes, mode: FetchMode)
    ensures
        spec_fetch_results(s, Seq::<KeyView>::empty(), attrs, mode) == Seq::<FetchItemView>::empty(),
        !remote_fails(s, initial_slots(Seq::<KeyView>::empty()), attrs, mode),
{
    let keys = Seq::<KeyView>::empty();
    assert(sentinel_items(keys) == Seq::<FetchItemView>::empty());
    assert(initial_slots(keys) == Seq::<SlotView>::empty());
    lemma_chain_preserves(s, initial_slots(keys), attrs, mode);
    assert(slots_final(s, initial_slots(keys), attrs, mode).len() == 0);
    assert(remote_pending_keys(slots_after_local(s, initial_slots(keys), attrs, mode), attrs).len()
        == 0) by {
        lemma_chain_preserves(s, initial_slots(keys), attrs, mode);
        assert(slots_after_local(s, initial_slots(keys), attrs, mode).len() == 0) by {
            if mode.local && s.indexedlog_cache is Some {
                lemma_log_stage_preserves(initial_slots(keys), attrs, s.indexedlog_cache->0.entries);
            }
            if mode.local && s.indexedlog_local is Some {
                lemma_log_stage_preserves(
                    slots_after_cache_log(s, initial_slots(keys), attrs, mode),
                    attrs,
                    s.indexedlog_local->0.entries,
                );
            }
            if mode.local && s.historystore_cache is Some {
                lemma_hist_stage_preserves(
                    slots_after_local_log(s, initial_slots(keys), attrs, mode),
                    attrs,
                    s.historystore_cache->0.entries,
                );
            }
            if mode.local && s.historystore_local is Some {
                lemma_hist_stage_preserves(
                    slots_after_hist_cache(s, initial_slots(keys), attrs, mode),
                    attrs,
                    s.historystore_local->0.entries,
                );
            }
        }
    }
    assert(!remote_fails(s, initial_slots(keys), attrs, mode));
    assert(slot_results(slots_final(s, initial_slots(keys), attrs, mode), attrs, false)
        =~= Seq::<FetchItemView>::empty());
    assert(spec_fetch_results(s, keys, attrs, mode) =~= Seq::<FetchItemView>::empty());
}

/// The slots the local stages leave keep their length and keys.
pub proof fn lemma_local_chain_preserves(
    s: TreeStoreView,
    slots0: Seq<SlotView>,
    attrs: TreeAttributes,
    mode: FetchMode,
)
    ensures
        slots_after_local(s, slots0, attrs, mode).len() == slots0.len(),
        forall|i: int|
            0 <= i < slots0.len() ==> (#[trigger] slots_after_local(s, slots0, attrs, mode)[i]).key
                == slots0[i].key,
{
    if mode.local && s.indexedlog_cache is Some {
        lemma_log_stage_preserves(slots0, attrs, s.indexedlog_cache->0.entries);
    }
    if mode.local && s.indexedlog_local is Some {
        lemma_log_stage_preserves(
            slots_after_cache_log(s, slots0, attrs, mode),
            attrs,
            s.indexedlog_local->0.entries,
        );
    }
    if mode.local && s.historystore_cache is Some {
        lemma_hist_stage_preserves(
            slots_after_local_log(s, slots0, attrs, mode),
            attrs,
            s.historystore_cache->0.entries,
        );
    }
    if mode.local && s.historystore_local is Some {
        lemma_hist_stage_preserves(
            slots_after_hist_cache(s, slots0, attrs, mode),
            attrs,
            s.historystore_local->0.entries,
        );
    }
}

/// A singleton batch produces exactly one outcome, the one
/// `singleton_outcome` gives.
pub proof fn lemma_singleton_batch(
    s: TreeStoreView,
    k: KeyView,
    attrs: TreeAttributes,
    mode: FetchMode,
)
    ensures
        spec_fetch_results(s, seq![k], attrs, mode) == seq![singleton_outcome(s, k, attrs, mode)],
        k.is_null() ==> !remote_fails(s, initial_slots(seq![k]), attrs, mode),
{
    let keys = seq![k];
    assert(keys.drop_last() =~= Seq::<KeyView>::empty());
    assert(keys.last() == k);
    assert(sentinel_keys(Seq::<KeyView>::empty()) == Seq::<KeyView>::empty());
    assert(tracked_keys(Seq::<KeyView>::empty()) == Seq::<KeyView>::empty());
    assert(initial_slots(Seq::<KeyView>::empty()) == Seq::<SlotView>::empty());
    assert(sentinel_items(Seq::<KeyView>::empty()) == Seq::<FetchItemView>::empty());
    let sl0 = initial_slots(keys);
    if k.is_null() {
        assert(sentinel_keys(keys) =~= seq![k]);
        assert(sentinel_items(keys) =~= seq![FetchItemView::Found(k, canonical_empty_view())]);
        assert(sl0 =~= Seq::<SlotView>::empty());
        lemma_local_chain_preserves(s, sl0, attrs, mode);
        assert(remote_pending_keys(slots_after_local(s, sl0, attrs, mode), attrs).len() == 0);
        assert(!remote_fails(s, sl0, attrs, mode));
        lemma_chain_preserves(s, sl0, attrs, mode);
        assert(slots_final(s, sl0, attrs, mode).len() == 0);
        assert(slot_results(slots_final(s, sl0, attrs, mode), attrs, false)
            =~= Seq::<FetchItemView>::empty());
        assert(spec_fetch_results(s, keys, attrs, mode) =~= seq![
            singleton_outcome(s, k, attrs, mode),
        ]);
    } else {
        assert(sentinel_keys(keys) =~= Seq::<KeyView>::empty());
        assert(sentinel_items(keys) =~= Seq::<FetchItemView>::empty());
        assert(sl0 =~= seq![
            SlotView { key: k, value: StoreTreeView { content: None, parents: None } },
        ]);
        lemma_chain_preserves(s, sl0, attrs, mode);
        let fin = slots_final(s, sl0, attrs, mode);
        assert(fin.len() == 1);
        assert(fin[0].key == k);
        assert(fin.drop_last() =~= Seq::<SlotView>::empty());
        assert(fin.last() == fin[0]);
        assert(slot_results(Seq::<SlotView>::empty(), attrs, true) == Seq::<FetchItemView>::empty());
        assert(slot_results(Seq::<SlotView>::empty(), attrs, false)
            == Seq::<FetchItemView>::empty());
        if remote_fails(s, sl0, attrs, mode) {
            // a failing remote call implies the one slot was still pending
            // after the local stages, so it is not done, and the remote and
            // legacy stages left it alone
            lemma_local_chain_preserves(s, sl0, attrs, mode);
            let sl_loc = slots_after_local(s, sl0, attrs, mode);
            assert(remote_pending_keys(sl_loc, attrs).len() > 0);
            assert(sl_loc.len() == 1);
            assert(remote_pending_keys(sl_loc.drop_last(), attrs) =~= Seq::<KeyView>::empty()) by {
                assert(sl_loc.drop_last() =~= Seq::<SlotView>::empty());
            }
            let p = sl_loc.last().pending(attrs);
            assert(p.content || p.parents);
            assert(!sl_loc.last().done(attrs));
            assert(slots_after_remote(s, sl0, attrs, mode) == sl_loc);
            assert(!legacy_runs(s, sl0, attrs, mode));
            assert(fin == sl_loc);
            assert(!fin[0].done(attrs));
            assert(slot_results(fin, attrs, true) =~= Seq::<FetchItemView>::empty());
            assert(spec_fetch_results(s, keys, attrs, mode) =~= seq![
                FetchItemView::Failed(StoreError::Network),
            ]);
        } else {
            if fin[0].done(attrs) {
                assert(slot_results(fin, attrs, false) =~= seq![
                    FetchItemView::Found(k, fin[0].value.mask(attrs)),
                ]);
            } else {
                assert(slot_results(fin, attrs, false) =~= seq![FetchItemView::NotFound(k)]);
            }
            assert(spec_fetch_results(s, keys, attrs, mode) =~= seq![
                singleton_outcome(s, k, attrs, mode),
            ]);
        }
    }
}

/// Every found outcome carries every requested facet.
pub proof fn lemma_found_has_requested(
    s: TreeStoreView,
    keys: Seq<KeyView>,
    attrs: TreeAttributes,
    mode: FetchMode,
)
    ensures
        forall|i: int|
            (0 <= i < spec_fetch_results(s, keys, attrs, mode).len() && (
            #[trigger] spec_fetch_results(s, keys, attrs, mode)[i]) is Found) ==> spec_fetch_results(
                s,
                keys,
                attrs,
                mode,
            )[i]->Found_1.attrs().contains(attrs),
{
    let rs = spec_fetch_results(s, keys, attrs, mode);
    let t = tracker_final(s, keys, attrs, mode);
    let failure = failure_of(s, initial_slots(keys), attrs, mode);
    crate::fetch::lemma_sentinel_items_shape(keys);
    lemma_slot_results_found(t.slots, attrs, failure is Some);
    assert forall|i: int|
        0 <= i < rs.len() && (#[trigger] rs[i]) is Found implies rs[i]->Found_1.attrs().contains(
        attrs,
    ) by {
        let im = t.immediate.len();
        let sr = slot_results(t.slots, attrs, failure is Some);
        if i < im {
            assert(rs[i] == t.immediate[i]);
            assert(t.immediate[i] == FetchItemView::Found(
                sentinel_keys(keys)[i],
                canonical_empty_view(),
            ));
        } else if i < im + sr.len() {
            assert(rs[i] == sr[i - im]);
        } else {
            assert(rs[i] == FetchItemView::Failed(failure->0));
        }
    }
}

/// Every found item a slot reports carries every requested facet.
pub proof fn lemma_slot_results_found(
    slots: Seq<SlotView>,
    requested: TreeAttributes,
    aborted: bool,
)
    ensures
        forall|j: int|
            (0 <= j < slot_results(slots, requested, aborted).len() && (#[trigger] slot_results(
                slots,
                requested,
                aborted,
            )[j]) is Found) ==> slot_results(slots, requested, aborted)[j]->Found_1.attrs().contains(
                requested,
            ),
    decreases slots.len(),
{
    if slots.len() > 0 {
        lemma_slot_results_found(slots.drop_last(), requested, aborted);
        let front = slot_results(slots.drop_last(), requested, aborted);
        let sc = slots.last();
        if sc.done(requested) {
            assert(sc.value.mask(requested).attrs().contains(requested)) by {
                assert(sc.pending(requested).is_empty());
            }
        }
    }
}

/// The views of a sequence of legacy keys.
pub open spec fn storekeys_view(s: Seq<StoreKey>) -> Seq<StoreKeyView> {
    s.map_values(|k: StoreKey| k@)
}

/// The identity keys among a sequence of legacy keys, in order.
pub open spec fn hgid_keys(sks: Seq<StoreKeyView>) -> Seq<KeyView>
    decreases sks.len(),
{
    if sks.len() == 0 {
        Seq::empty()
    } else {
        let front = hgid_keys(sks.drop_last());
        match sks.last() {
            StoreKeyView::HgId(k) => front.push(k),
            StoreKeyView::Content(_c) => front,
        }
    }
}

/// Which legacy keys the local logs are missing: every key except an
/// identity key whose hash a configured content log holds.
pub open spec fn missing_spec(s: TreeStoreView, sks: Seq<StoreKeyView>) -> Seq<StoreKeyView>
    decreases sks.len(),
{
    if sks.len() == 0 {
        Seq::empty()
    } else {
        let front = missing_spec(s, sks.drop_last());
        let sk = sks.last();
        let held = match sk {
            StoreKeyView::HgId(k) => {
                ||| (s.indexedlog_cache matches Some(c) && log_lookup(c.entries, k.hgid) is Some)
                ||| (s.indexedlog_local matches Some(c) && log_lookup(c.entries, k.hgid) is Some)
            },
            StoreKeyView::Content(_c) => false,
        };
        if held {
            front
        } else {
            front.push(sk)
        }
    }
}

/// The batch a legacy-keyed read dispatches: the identity key alone, or
/// nothing for a raw content address.
pub open spec fn storekey_batch(sk: StoreKeyView) -> Seq<KeyView> {
    match sk {
        StoreKeyView::HgId(k) => seq![k],
        StoreKeyView::Content(_c) => Seq::empty(),
    }
}

impl TreeStore {
    /// Fetches the raw content of a single object through the whole
    /// waterfall.
    pub fn get(&mut self, key: StoreKey) -> (r: Result<StoreResult<Vec<u8>>, StoreError>)
        ensures
            match key@ {
                StoreKeyView::HgId(k) => match singleton_outcome(
                    old(self)@,
                    k,
                    TreeAttributes::spec_content(),
                    FetchMode::spec_allow_remote(),
                ) {
                    FetchItemView::Found(_k2, v) => (r matches Ok(sr) && sr matches StoreResult::Found(
                        d,
                    ) && v.content matches Some(c) && d@ == c.content_bytes()),
                    FetchItemView::NotFound(_k2) => (r matches Ok(sr)
                        && sr matches StoreResult::NotFound(sk2) && sk2@ == key@),
                    FetchItemView::Failed(e) => r == Err::<StoreResult<Vec<u8>>, StoreError>(e),
                },
                StoreKeyView::Content(_c) => r == Err::<StoreResult<Vec<u8>>, StoreError>(
                    StoreError::NotSingle,
                ),
            },
            final(self)@ == (TreeStoreView {
                metrics: final(self)@.metrics,
                ..spec_store_after(
                    old(self)@,
                    storekey_batch(key@),
                    TreeAttributes::spec_content(),
                    FetchMode::spec_allow_remote(),
                )
            }),
    {
        let sk = key.clone();
        let mut keys: Vec<Key> = Vec::new();
        match key {
            StoreKey::HgId(k) => {
                keys.push(k);
            },
            StoreKey::Content(_h) => {
            },
        }
        let ghost keys_v = keys_view(keys@);
        let ghost s0 = self@;
        proof {
            match sk@ {
                StoreKeyView::HgId(k) => {
                    assert(keys_v =~= seq![k]);
                    lemma_singleton_batch(
                        s0,
                        k,
                        TreeAttributes::spec_content(),
                        FetchMode::spec_allow_remote(),
                    );
                    lemma_found_has_requested(
                        s0,
                        keys_v,
                        TreeAttributes::spec_content(),
                        FetchMode::spec_allow_remote(),
                    );
                },
                StoreKeyView::Content(_c) => {
                    assert(keys_v =~= Seq::<KeyView>::empty());
                    lemma_empty_batch(s0, TreeAttributes::spec_content(), FetchMode::spec_allow_remote());
                },
            }
        }
        proof {
            assert(keys_v =~= storekey_batch(sk@));
        }
        let fetched = self.fetch_batch(keys, TreeAttributes::content_only(), FetchMode::allow_remote());
        proof {
            assert(self@ =~= (TreeStoreView {
                metrics: self@.metrics,
                ..spec_store_after(
                    s0,
                    storekey_batch(sk@),
                    TreeAttributes::spec_content(),
                    FetchMode::spec_allow_remote(),
                )
            }));
        }
        match fetched.single() {
            Ok(opt) => match opt {
                Some(entry) => match entry.content {
                    Some(c) => Ok(StoreResult::Found(crate::types::clone_bytes(c.hg_content()))),
                    None => {
                        proof {
                            assert(false);
                        }
                        Err(StoreError::NoContent)
                    },
                },
                None => Ok(StoreResult::NotFound(sk)),
            },
            Err(e) => Err(e),
        }
    }

    /// Checks that a single object's content is available; the returned
    /// metadata itself is always empty, as content metadata is no longer
    /// recorded for trees.
    pub fn get_meta(&mut self, key: StoreKey) -> (r: Result<StoreResult<Metadata>, StoreError>)
        ensures
            match key@ {
                StoreKeyView::HgId(k) => match singleton_outcome(
                    old(self)@,
                    k,
                    TreeAttributes::spec_content(),
                    FetchMode::spec_allow_remote(),
                ) {
                    FetchItemView::Found(_k2, _v) => (r matches Ok(sr)
                        && sr matches StoreResult::Found(m) && m.size is None && m.flags is None),
                    FetchItemView::NotFound(_k2) => (r matches Ok(sr)
                        && sr matches StoreResult::NotFound(sk2) && sk2@ == key@),
                    FetchItemView::Failed(e) => r == Err::<StoreResult<Metadata>, StoreError>(e),
                },
                StoreKeyView::Content(_c) => r == Err::<StoreResult<Metadata>, StoreError>(
                    StoreError::NotSingle,
                ),
            },
            final(self)@ == (TreeStoreView {
                metrics: final(self)@.metrics,
                ..spec_store_after(
                    old(self)@,
                    storekey_batch(key@),
                    TreeAttributes::spec_content(),
                    FetchMode::spec_allow_remote(),
                )
            }),
    {
        let sk = key.clone();
        let mut keys: Vec<Key> = Vec::new();
        match key {
            StoreKey::HgId(k) => {
                keys.push(k);
            },
            StoreKey::Content(_h) => {
            },
        }
        let ghost keys_v = keys_view(keys@);
        let ghost s0 = self@;
        proof {
            match sk@ {
                StoreKeyView::HgId(k) => {
                    assert(keys_v =~= seq![k]);
                    lemma_singleton_batch(
                        s0,
                        k,
                        TreeAttributes::spec_content(),
                        FetchMode::spec_allow_remote(),
                    );
                },
                StoreKeyView::Content(_c) => {
                    assert(keys_v =~= Seq::<KeyView>::empty());
                    lemma_empty_batch(s0, TreeAttributes::spec_content(), FetchMode::spec_allow_remote());
                },
            }
        }
        proof {
            assert(keys_v =~= storekey_batch(sk@));
        }
        let fetched = self.fetch_batch(keys, TreeAttributes::content_only(), FetchMode::allow_remote());
        proof {
            assert(self@ =~= (TreeStoreView {
                metrics: self@.metrics,
                ..spec_store_after(
                    s0,
                    storekey_batch(sk@),
                    TreeAttributes::spec_content(),
                    FetchMode::spec_allow_remote(),
                )
            }));
        }
        match fetched.single() {
            Ok(opt) => match opt {
                Some(_entry) => Ok(StoreResult::Found(Metadata::none_metadata())),
                None => Ok(StoreResult::NotFound(sk)),
            },
            Err(e) => Err(e),
        }
    }

    /// Fetches the parent linkage of a single object through the whole
    /// waterfall.
    pub fn get_node_info(&mut self, key: &Key) -> (r: Result<Option<NodeInfo>, StoreError>)
        ensures
            match singleton_outcome(
                old(self)@,
                key@,
                TreeAttributes::spec_parents(),
                FetchMode::spec_allow_remote(),
            ) {
                FetchItemView::Found(_k2, v) => (r matches Ok(o) && o matches Some(info)
                    && v.parents matches Some(p) && info@.parents == p && info@.linknode
                    == null_hash()),
                FetchItemView::NotFound(_k2) => r == Ok::<Option<NodeInfo>, StoreError>(None),
                FetchItemView::Failed(e) => r == Err::<Option<NodeInfo>, StoreError>(e),
            },
            final(self)@ == (TreeStoreView {
                metrics: final(self)@.metrics,
                ..spec_store_after(
                    old(self)@,
                    seq![key@],
                    TreeAttributes::spec_parents(),
                    FetchMode::spec_allow_remote(),
                )
            }),
    {
        let mut keys: Vec<Key> = Vec::new();
        keys.push(key.clone());
        let ghost s0 = self@;
        proof {
            assert(keys_view(keys@) =~= seq![key@]);
            lemma_singleton_batch(
                s0,
                key@,
                TreeAttributes::spec_parents(),
                FetchMode::spec_allow_remote(),
            );
            lemma_found_has_requested(
                s0,
                keys_view(keys@),
                TreeAttributes::spec_parents(),
                FetchMode::spec_allow_remote(),
            );
        }
        let fetched = self.fetch_batch(keys, TreeAttributes::parents_only(), FetchMode::allow_remote());
        proof {
            assert(self@ =~= (TreeStoreView {
                metrics: self@.metrics,
                ..spec_store_after(
                    s0,
                    seq![key@],
                    TreeAttributes::spec_parents(),
                    FetchMode::spec_allow_remote(),
                )
            }));
        }
        match fetched.single() {
            Ok(opt) => match opt {
                Some(entry) => match entry.parents {
                    Some(p) => Ok(Some(NodeInfo { parents: p, linknode: HgId::null_id() })),
                    None => {
                        proof {
                            assert(false);
                        }
                        Err(StoreError::NoContent)
                    },
                },
                None => Ok(None),
            },
            Err(e) => Err(e),
        }
    }

    /// Records parent linkage in the local history tier.
    pub fn add_node_info(&mut self, key: &Key, info: &NodeInfo) -> (r: Result<(), StoreError>)
        ensures
            old(self)@.historystore_local is None ==> r == Err::<(), StoreError>(
                StoreError::NoLocalHistoryStore,
            ) && final(self)@ == old(self)@,
            old(self)@.historystore_local matches Some(h) ==> r == Ok::<(), StoreError>(())
                && final(self)@ == (TreeStoreView {
                historystore_local: Some(
                    (if assoc_lookup(h.entries, key@.hgid) is Some {
                        h
                    } else {
                        HistoryStoreView {
                            entries: h.entries.push((key@.hgid, info@)),
                            unflushed: spec_sat_add(h.unflushed, 1),
                            ..h
                        }
                    }),
                ),
                ..old(self)@
            }),
    {
        match &mut self.historystore_local {
            Some(h) => {
                h.add(key, info);
                proof {
                    assert(self@ =~= (TreeStoreView {
                        historystore_local: opt_hist_view(self.historystore_local),
                        ..old(self)@
                    }));
                }
                Ok(())
            },
            None => Err(StoreError::NoLocalHistoryStore),
        }
    }

    /// Fetches the raw content of a tree at a path from the local tiers
    /// only. The sentinel hash answers with empty content.
    pub fn get_local_content(&mut self, path: String, node: HgId) -> (r: Result<
        Option<Vec<u8>>,
        StoreError,
    >)
        ensures
            match singleton_outcome(
                old(self)@,
                KeyView { path: path@, hgid: node@ },
                TreeAttributes::spec_content(),
                FetchMode::spec_local_only(),
            ) {
                FetchItemView::Found(_k2, v) => (r matches Ok(o) && o matches Some(d)
                    && v.content matches Some(c) && d@ == c.content_bytes()),
                FetchItemView::NotFound(_k2) => r == Ok::<Option<Vec<u8>>, StoreError>(None),
                FetchItemView::Failed(e) => r == Err::<Option<Vec<u8>>, StoreError>(e),
            },
            final(self)@ == (TreeStoreView {
                metrics: final(self)@.metrics,
                ..spec_store_after(
                    old(self)@,
                    seq![KeyView { path: path@, hgid: node@ }],
                    TreeAttributes::spec_content(),
                    FetchMode::spec_local_only(),
                )
            }),
    {
        let ghost kv = KeyView { path: path@, hgid: node@ };
        let key = Key::new(path, node);
        let ghost s0 = self@;
        let mut keys: Vec<Key> = Vec::new();
        keys.push(key);
        proof {
            assert(keys_view(keys@) =~= seq![KeyView { path: keys@[0]@.path, hgid: keys@[0]@.hgid }]);
            assert(keys@[0]@ =~= (KeyView { path: keys@[0]@.path, hgid: keys@[0]@.hgid }));
            lemma_singleton_batch(
                s0,
                keys@[0]@,
                TreeAttributes::spec_content(),
                FetchMode::spec_local_only(),
            );
            lemma_found_has_requested(
                s0,
                keys_view(keys@),
                TreeAttributes::spec_content(),
                FetchMode::spec_local_only(),
            );
        }
        proof {
            assert(keys_view(keys@) =~= seq![kv]);
        }
        let fetched = self.fetch_batch(keys, TreeAttributes::content_only(), FetchMode::local_only());
        proof {
            assert(self@ =~= (TreeStoreView {
                metrics: self@.metrics,
                ..spec_store_after(
                    s0,
                    seq![kv],
                    TreeAttributes::spec_content(),
                    FetchMode::spec_local_only(),
                )
            }));
        }
        match fetched.single() {
            Ok(opt) => match opt {
                Some(entry) => match entry.content {
                    Some(c) => Ok(Some(crate::types::clone_bytes(c.hg_content()))),
                    None => {
                        proof {
                            assert(false);
                        }
                        Err(StoreError::NoContent)
                    },
                },
                None => Ok(None),
            },
            Err(e) => Err(e),
        }
    }

    /// Fetches the raw content of a tree at a path, in the given mode. The
    /// sentinel hash answers with empty content; a miss is an error.
    pub fn get_content(&mut self, path: String, node: HgId, fetch_mode: FetchMode) -> (r: Result<
        Vec<u8>,
        StoreError,
    >)
        ensures
            match singleton_outcome(
                old(self)@,
                KeyView { path: path@, hgid: node@ },
                TreeAttributes::spec_content(),
                fetch_mode,
            ) {
                FetchItemView::Found(_k2, v) => (r matches Ok(d) && v.content matches Some(c) && d@
                    == c.content_bytes()),
                FetchItemView::NotFound(_k2) => r == Err::<Vec<u8>, StoreError>(
                    StoreError::KeyNotFound,
                ),
                FetchItemView::Failed(e) => r == Err::<Vec<u8>, StoreError>(e),
            },
            final(self)@ == (TreeStoreView {
                metrics: final(self)@.metrics,
                ..spec_store_after(
                    old(self)@,
                    seq![KeyView { path: path@, hgid: node@ }],
                    TreeAttributes::spec_content(),
                    fetch_mode,
                )
            }),
    {
        let ghost kv = KeyView { path: path@, hgid: node@ };
        let key = Key::new(path, node);
        let ghost s0 = self@;
        let mut keys: Vec<Key> = Vec::new();
        keys.push(key);
        proof {
            assert(keys@[0]@ =~= (KeyView { path: keys@[0]@.path, hgid: keys@[0]@.hgid }));
            assert(keys_view(keys@) =~= seq![keys@[0]@]);
            lemma_singleton_batch(s0, keys@[0]@, TreeAttributes::spec_content(), fetch_mode);
            lemma_found_has_requested(
                s0,
                keys_view(keys@),
                TreeAttributes::spec_content(),
                fetch_mode,
            );
        }
        proof {
            assert(keys_view(keys@) =~= seq![kv]);
        }
        let fetched = self.fetch_batch(keys, TreeAttributes::content_only(), fetch_mode);
        proof {
            assert(self@ =~= (TreeStoreView {
                metrics: self@.metrics,
                ..spec_store_after(s0, seq![kv], TreeAttributes::spec_content(), fetch_mode)
            }));
        }
        match fetched.single() {
            Ok(opt) => match opt {
                Some(entry) => match entry.content {
                    Some(c) => Ok(crate::types::clone_bytes(c.hg_content())),
                    None => {
                        proof {
                            assert(false);
                        }
                        Err(StoreError::NoContent)
                    },
                },
                None => Err(StoreError::KeyNotFound),
            },
            Err(e) => Err(e),
        }
    }

    /// Readies a batch of objects through the whole waterfall, reporting
    /// which of them no tier could supply.
    pub fn prefetch(&mut self, keys: Vec<StoreKey>) -> (r: Result<Vec<StoreKey>, StoreError>)
        ensures
            ({
                let rs = spec_fetch_results(
                    old(self)@,
                    hgid_keys(storekeys_view(keys@)),
                    TreeAttributes::spec_content(),
                    FetchMode::spec_allow_remote(),
                );
                match r {
                    Ok(out) => crate::fetch::first_failure(rs) is None && out@.len()
                        == crate::fetch::missing_keys(rs).len() && (forall|i: int|
                        0 <= i < out@.len() ==> (#[trigger] out@[i])@ == StoreKeyView::HgId(
                            crate::fetch::missing_keys(rs)[i],
                        )),
                    Err(e) => crate::fetch::first_failure(rs) == Some(e),
                }
            }),
            final(self)@ == (TreeStoreView {
                metrics: final(self)@.metrics,
                ..spec_store_after(
                    old(self)@,
                    hgid_keys(storekeys_view(keys@)),
                    TreeAttributes::spec_content(),
                    FetchMode::spec_allow_remote(),
                )
            }),
    {
        let ghost s0 = self@;
        let ghost sks = storekeys_view(keys@);
        let mut ks: Vec<Key> = Vec::new();
        proof {
            assert(keys_view(ks@) =~= hgid_keys(sks.take(0)));
        }
        let n = keys.len();
        let mut keys = keys;
        let mut i: usize = 0;
        while i < n
            invariant
                i <= n,
                n == keys.len(),
                sks == storekeys_view(keys@),
                sks.len() == n,
                keys_view(ks@) == hgid_keys(sks.take(i as int)),
            decreases n - i,
        {
            let ghost prefix = sks.take(i as int);
            match &keys[i] {
                StoreKey::HgId(k) => {
                    let ghost pre = ks@;
                    ks.push(k.clone());
                    proof {
                        assert(ks@ =~= pre.push(ks@.last()));
                        assert(keys_view(ks@) =~= keys_view(pre).push(sks[i as int]->HgId_0));
                    }
                },
                StoreKey::Content(_h) => {
                },
            }
            i = i + 1;
            proof {
                let taken = sks.take(i as int);
                assert(taken.drop_last() =~= prefix);
                assert(taken.last() == sks[i - 1]);
                assert(keys_view(ks@) =~= hgid_keys(taken));
            }
        }
        proof {
            assert(sks.take(n as int) =~= sks);
        }
        let fetched = self.fetch_batch(ks, TreeAttributes::content_only(), FetchMode::allow_remote());
        proof {
            assert(self@ =~= (TreeStoreView {
                metrics: self@.metrics,
                ..spec_store_after(
                    s0,
                    hgid_keys(sks),
                    TreeAttributes::spec_content(),
                    FetchMode::spec_allow_remote(),
                )
            }));
        }
        match fetched.missing() {
            Ok(ms) => {
                let ghost msv = keys_view(ms@);
                let mut out: Vec<StoreKey> = Vec::new();
                let m = ms.len();
                let mut ms = ms;
                let mut j: usize = 0;
                while j < m
                    invariant
                        j <= m,
                        m == ms.len(),
                        msv == keys_view(ms@),
                        msv.len() == m,
                        out@.len() == j,
                        forall|x: int|
                            0 <= x < j ==> (#[trigger] out@[x])@ == StoreKeyView::HgId(msv[x]),
                    decreases m - j,
                {
                    out.push(StoreKey::HgId(ms[j].clone()));
                    j = j + 1;
                }
                Ok(out)
            },
            Err(e) => Err(e),
        }
    }

    /// Reports every handed key as needing upload: this store uploads
    /// nothing itself.
    pub fn upload(&mut self, keys: &Vec<StoreKey>) -> (r: Result<Vec<StoreKey>, StoreError>)
        ensures
            r matches Ok(out) && out@.len() == keys@.len() && (forall|i: int|
                0 <= i < keys@.len() ==> (#[trigger] out@[i])@ == keys@[i]@),
    {
        let mut out: Vec<StoreKey> = Vec::new();
        let mut i: usize = 0;
        while i < keys.len()
            invariant
                i <= keys.len(),
                out@.len() == i,
                forall|x: int| 0 <= x < i ==> (#[trigger] out@[x])@ == keys@[x]@,
            decreases keys.len() - i,
        {
            out.push(keys[i].clone());
            i = i + 1;
        }
        Ok(out)
    }

    /// Which of the handed keys the local content logs are missing.
    pub fn get_missing(&self, keys: &Vec<StoreKey>) -> (r: Result<Vec<StoreKey>, StoreError>)
        ensures
            r matches Ok(out) && storekeys_view(out@) == missing_spec(
                self@,
                storekeys_view(keys@),
            ),
    {
        let ghost sks = storekeys_view(keys@);
        let mut out: Vec<StoreKey> = Vec::new();
        proof {
            assert(storekeys_view(out@) =~= missing_spec(self@, sks.take(0)));
        }
        let mut i: usize = 0;
        while i < keys.len()
            invariant
                i <= keys.len(),
                sks == storekeys_view(keys@),
                sks.len() == keys@.len(),
                storekeys_view(out@) == missing_spec(self@, sks.take(i as int)),
            decreases keys.len() - i,
        {
            let ghost prefix = sks.take(i as int);
            let held = match &keys[i] {
                StoreKey::HgId(k) => {
                    let in_cache = match &self.indexedlog_cache {
                        Some(c) => c.contains(&k.hgid),
                        None => false,
                    };
                    let in_local = match &self.indexedlog_local {
                        Some(c) => c.contains(&k.hgid),
                        None => false,
                    };
                    in_cache || in_local
                },
                StoreKey::Content(_h) => false,
            };
            if !held {
                let ghost pre = out@;
                out.push(keys[i].clone());
                proof {
                    assert(out@ =~= pre.push(out@.last()));
                    assert(storekeys_view(out@) =~= storekeys_view(pre).push(sks[i as int]));
                }
            }
            i = i + 1;
            proof {
                let taken = sks.take(i as int);
                assert(taken.drop_last() =~= prefix);
                assert(taken.last() == sks[i - 1]);
                assert(storekeys_view(out@) =~= missing_spec(self@, taken));
            }
        }
        proof {
            assert(sks.take(keys@.len() as int) =~= sks);
        }
        Ok(out)
    }

    /// Content addressing is not supported for trees: every lookup by raw
    /// content address misses.
    pub fn blob(&self, key: StoreKey) -> (r: StoreResult<Vec<u8>>)
        ensures
            r matches StoreResult::NotFound(sk) && sk@ == key@,
    {
        StoreResult::NotFound(key)
    }

    /// Content addressing is not supported for trees: every metadata
    /// lookup by raw content address misses.
    pub fn metadata(&self, key: StoreKey) -> (r: StoreResult<Metadata>)
        ensures
            r matches StoreResult::NotFound(sk) && sk@ == key@,
    {
        StoreResult::NotFound(key)
    }

    /// The same store with a legacy fallback attached.
    pub fn with_content_store(self, cs: ContentStore) -> (r: TreeStore)
        ensures
            r@ == (TreeStoreView { contentstore: Some(cs@), ..self@ }),
    {
        let mut r = self;
        let ghost before = r@;
        r.contentstore = Some(cs);
        proof {
            assert(r@ =~= (TreeStoreView { contentstore: opt_content_view(r.contentstore), ..before }));
        }
        r
    }

    /// Buffers one write: through the legacy store where one is attached,
    /// else into the chosen content log.
    pub fn add_pending(
        &mut self,
        key: &Key,
        data: Vec<u8>,
        meta: Metadata,
        location: RepackLocation,
    ) -> (r: Result<(), StoreError>)
        requires
            old(self)@.contentstore is None && location == RepackLocation::Shared ==> old(
                self,
            )@.indexedlog_cache is Some,
        ensures
            r is Ok,
            old(self)@.contentstore matches Some(c) ==> final(self)@ == (TreeStoreView {
                contentstore: Some(
                    ContentStoreView { pending: c.pending.push((key@.hgid, data@)), ..c },
                ),
                ..old(self)@
            }),
            old(self)@.contentstore is None && location == RepackLocation::Local ==> final(self)@
                == (TreeStoreView {
                indexedlog_local: (match old(self)@.indexedlog_local {
                    Some(v) => Some(writeback_entries(
                        v,
                        seq![EntryView { key: key@, data: data@, meta }],
                    )),
                    None => None,
                }),
                ..old(self)@
            }),
            old(self)@.contentstore is None && location == RepackLocation::Shared ==> final(self)@
                == (TreeStoreView {
                indexedlog_cache: (match old(self)@.indexedlog_cache {
                    Some(v) => Some(writeback_entries(
                        v,
                        seq![EntryView { key: key@, data: data@, meta }],
                    )),
                    None => None,
                }),
                ..old(self)@
            }),
    {
        match &mut self.contentstore {
            Some(cs) => {
                cs.add_pending(key, data);
                proof {
                    assert(self@ =~= (TreeStoreView {
                        contentstore: opt_content_view(self.contentstore),
                        ..old(self)@
                    }));
                }
                Ok(())
            },
            None => {
                let entry = Entry::new(key.clone(), data, meta);
                let ghost ev = entry@;
                match location {
                    RepackLocation::Local => {
                        match &mut self.indexedlog_local {
                            Some(log) => {
                                let ghost log0 = log@;
                                log.put_entry(entry);
                                proof {
                                    assert(seq![ev].drop_last() =~= Seq::<EntryView>::empty());
                                    assert(seq![ev].last() == ev);
                                    assert(writeback_entries(log0, Seq::<EntryView>::empty())
                                        == log0);
                                    assert(log@ =~= writeback_entries(log0, seq![ev]));
                                    assert(ev =~= (EntryView { key: key@, data: ev.data, meta }));
                                    assert(self@ =~= (TreeStoreView {
                                        indexedlog_local: opt_log_view(self.indexedlog_local),
                                        ..old(self)@
                                    }));
                                }
                            },
                            None => {
                                proof {
                                    assert(self@ =~= old(self)@);
                                }
                            },
                        }
                        Ok(())
                    },
                    RepackLocation::Shared => {
                        match &mut self.indexedlog_cache {
                            Some(log) => {
                                let ghost log0 = log@;
                                log.put_entry(entry);
                                proof {
                                    assert(seq![ev].drop_last() =~= Seq::<EntryView>::empty());
                                    assert(seq![ev].last() == ev);
                                    assert(writeback_entries(log0, Seq::<EntryView>::empty())
                                        == log0);
                                    assert(log@ =~= writeback_entries(log0, seq![ev]));
                                    assert(ev =~= (EntryView { key: key@, data: ev.data, meta }));
                                    assert(self@ =~= (TreeStoreView {
                                        indexedlog_cache: opt_log_view(self.indexedlog_cache),
                                        ..old(self)@
                                    }));
                                }
                            },
                            None => {
                                proof {
                                    assert(false);
                                }
                            },
                        }
                        Ok(())
                    },
                }
            },
        }
    }

    /// Commits buffered writes: through the legacy store where one is
    /// attached, else by flushing every tier. No repack paths are ever
    /// produced.
    pub fn commit_pending(&mut self, location: RepackLocation) -> (r: Result<
        Option<Vec<String>>,
        StoreError,
    >)
        ensures
            old(self)@.contentstore matches Some(c) ==> r matches Ok(o) && o is None
                && final(self)@ == (TreeStoreView {
                contentstore: Some(
                    ContentStoreView {
                        entries: c.entries + c.pending,
                        pending: Seq::<(Seq<u8>, Seq<u8>)>::empty(),
                        ..c
                    },
                ),
                ..old(self)@
            }),
            old(self)@.contentstore is None ==> (match r {
                Ok(o) => o is None && !any_flush_fails(old(self)@),
                Err(_e) => any_flush_fails(old(self)@),
            }),
    {
        let _ = location;
        match &mut self.contentstore {
            Some(cs) => {
                cs.commit_pending();
                proof {
                    assert(self@ =~= (TreeStoreView {
                        contentstore: opt_content_view(self.contentstore),
                        ..old(self)@
                    }));
                }
                Ok(None)
            },
            None => {
                let report = self.flush();
                match report.error {
                    Some(e) => Err(e),
                    None => Ok(None),
                }
            },
        }
    }

    /// Tears the store down: where it is configured to flush on teardown,
    /// a best-effort flush of every tier; teardown errors are swallowed,
    /// since there is no one to return them to.
    pub fn teardown(&mut self)
        ensures
            old(self)@.flush_on_drop ==> final(self)@ == (TreeStoreView {
                indexedlog_local: log_flushed(old(self)@.indexedlog_local),
                indexedlog_cache: log_flushed(old(self)@.indexedlog_cache),
                tree_aux_store: treeaux_flushed(old(self)@.tree_aux_store),
                historystore_local: hist_flushed(old(self)@.historystore_local),
                historystore_cache: hist_flushed(old(self)@.historystore_cache),
                metrics: TreeStoreMetrics::spec_zero(),
                ..old(self)@
            }),
            !old(self)@.flush_on_drop ==> final(self)@ == old(self)@,
    {
        if self.flush_on_drop {
            let _report = self.flush();
        }
    }
}

/// Whether `o` is the content read of the outcome `it`: the key with its
/// bytes for a found key, the missing-key error for a miss, the failure
/// itself where one cut the batch short.
pub open spec fn matches_content_item(
    it: FetchItemView,
    o: Result<(Key, Vec<u8>), StoreError>,
) -> bool {
    match it {
        FetchItemView::Found(k, v) => (o matches Ok(p) && p.0@ == k && (v.content matches Some(c)
            && p.1@ == c.content_bytes())),
        FetchItemView::NotFound(_k) => o == Err::<(Key, Vec<u8>), StoreError>(
            StoreError::KeyNotFound,
        ),
        FetchItemView::Failed(e) => o == Err::<(Key, Vec<u8>), StoreError>(e),
    }
}

impl TreeStore {
    /// Fetches the content of every requested tree, delivering one read
    /// per outcome in delivery order: the bytes for a found key, an error
    /// for a miss or for a failure that cut the batch short.
    pub fn get_content_iter(&mut self, keys: Vec<Key>, fetch_mode: FetchMode) -> (r: Vec<
        Result<(Key, Vec<u8>), StoreError>,
    >)
        ensures
            ({
                let rs = spec_fetch_results(
                    old(self)@,
                    keys_view(keys@),
                    TreeAttributes::spec_content(),
                    fetch_mode,
                );
                r@.len() == rs.len() && (forall|i: int|
                    0 <= i < rs.len() ==> matches_content_item(rs[i], #[trigger] r@[i]))
            }),
            final(self)@ == (TreeStoreView {
                metrics: final(self)@.metrics,
                ..spec_store_after(
                    old(self)@,
                    keys_view(keys@),
                    TreeAttributes::spec_content(),
                    fetch_mode,
                )
            }),
    {
        let ghost s0 = self@;
        let ghost keys_v = keys_view(keys@);
        proof {
            lemma_found_has_requested(s0, keys_v, TreeAttributes::spec_content(), fetch_mode);
        }
        let fetched = self.fetch_batch(keys, TreeAttributes::content_only(), fetch_mode);
        proof {
            assert(self@ =~= (TreeStoreView {
                metrics: self@.metrics,
                ..spec_store_after(s0, keys_v, TreeAttributes::spec_content(), fetch_mode)
            }));
        }
        let ghost rs = fetched@;
        let items = fetched.into_items();
        let mut out: Vec<Result<(Key, Vec<u8>), StoreError>> = Vec::new();
        let mut i: usize = 0;
        while i < items.len()
            invariant
                i <= items.len(),
                crate::fetch::items_view(items@) == rs,
                rs.len() == items@.len(),
                rs == spec_fetch_results(s0, keys_v, TreeAttributes::spec_content(), fetch_mode),
                s0 == old(self)@,
                out@.len() == i,
                forall|j: int| 0 <= j < i ==> matches_content_item(rs[j], #[trigger] out@[j]),
            decreases items.len() - i,
        {
            proof {
                assert(items@[i as int]@ == rs[i as int]);
            }
            match &items[i] {
                FetchItem::Found(k, v) => {
                    match &v.content {
                        Some(c) => {
                            out.push(Ok((k.clone(), crate::types::clone_bytes(c.hg_content()))));
                        },
                        None => {
                            proof {
                                lemma_found_has_requested(
                                    s0,
                                    keys_v,
                                    TreeAttributes::spec_content(),
                                    fetch_mode,
                                );
                                assert(rs[i as int]->Found_1.attrs().contains(
                                    TreeAttributes::spec_content(),
                                ));
                                assert(false);
                            }
                            out.push(Err(StoreError::NoContent));
                        },
                    }
                },
                FetchItem::NotFound(_k) => {
                    out.push(Err(StoreError::KeyNotFound));
                },
                FetchItem::Failed(e) => {
                    out.push(Err(*e));
                },
            }
            i = i + 1;
        }
        out
    }

    /// The store reshaped so that writes go straight to the shared cache
    /// tiers: the cache content log and cache history tier stand in the
    /// local slots, and every other tier is dropped. The cache content log
    /// must be configured.
    pub fn get_shared_mutable(self) -> (r: TreeStore)
        requires
            self@.indexedlog_cache is Some,
        ensures
            r@ == (TreeStoreView {
                indexedlog_local: self@.indexedlog_cache,
                indexedlog_cache: None,
                cache_to_local_cache: false,
                edenapi: None,
                contentstore: None,
                aux_cache: None,
                tree_aux_store: None,
                tree_metadata_mode: TreeMetadataMode::Never,
                historystore_local: self@.historystore_cache,
                historystore_cache: None,
                prefetch_tree_parents: false,
                flush_on_drop: true,
                fetch_tree_aux_data: false,
                metrics: self@.metrics,
            }),
    {
        let ghost before = self@;
        let r = TreeStore {
            indexedlog_local: self.indexedlog_cache,
            indexedlog_cache: None,
            cache_to_local_cache: false,
            edenapi: None,
            contentstore: None,
            aux_cache: None,
            tree_aux_store: None,
            tree_metadata_mode: TreeMetadataMode::Never,
            historystore_local: self.historystore_cache,
            historystore_cache: None,
            prefetch_tree_parents: false,
            flush_on_drop: true,
            fetch_tree_aux_data: false,
            metrics: self.metrics,
        };
        proof {
            assert(r@ =~= (TreeStoreView {
                indexedlog_local: before.indexedlog_cache,
                indexedlog_cache: None,
                cache_to_local_cache: false,
                edenapi: None,
                contentstore: None,
                aux_cache: None,
                tree_aux_store: None,
                tree_metadata_mode: TreeMetadataMode::Never,
                historystore_local: before.historystore_cache,
                historystore_cache: None,
                prefetch_tree_parents: false,
                flush_on_drop: true,
                fetch_tree_aux_data: false,
                metrics: before.metrics,
            }));
        }
        r
    }
}

} // verus!
