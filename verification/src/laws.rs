//! The store's cross-cutting guarantees, stated and proved over the fetch
//! model: what one batch delivers, which keys never reach a tier, and how
//! the gating flags decide an outcome.

use vstd::prelude::*;

use crate::attrs::TreeAttributes;
use crate::fetch::{
    canonical_empty_view, sentinel_items, sentinel_keys, slot_keys, slot_results, tracked_keys,
    FetchItemView, FetchMode, SlotView,
};
use crate::tiers::{assoc_lookup, log_lookup, remote_lookup, remote_response};
use crate::tree::{
    content_pending_keys, failure_of, hist_stage_slot, initial_slots, legacy_runs,
    lemma_chain_preserves, lemma_initial_slots_shape, lemma_local_chain_preserves,
    lemma_singleton_batch, log_stage_slot, parents_pending_keys, remote_fails, remote_keys_of,
    remote_pending_keys, remote_runs, singleton_outcome, slots_after_cache_log,
    slots_after_hist_cache, slots_after_local, slots_after_local_log, slots_after_remote,
    slots_final, spec_fetch_results, spec_store_after, tracker_final, TreeStoreView,
};
use crate::types::KeyView;

verus! {

/// Whether an item is the terminal outcome of the key `k`. A failure item
/// is no key's outcome.
pub open spec fn item_has_key(it: FetchItemView, k: KeyView) -> bool {
    match it {
        FetchItemView::Found(k2, _v) => k2 == k,
        FetchItemView::NotFound(k2) => k2 == k,
        FetchItemView::Failed(_e) => false,
    }
}

/// The tracked keys are pairwise distinct, none is the sentinel, and they
/// are exactly the batch's distinct non-sentinel keys.
pub proof fn lemma_tracked_keys_shape(keys: Seq<KeyView>)
    ensures
        forall|i: int, j: int|
            0 <= i < j < tracked_keys(keys).len() ==> tracked_keys(keys)[i] != tracked_keys(
                keys,
            )[j],
        forall|i: int|
            0 <= i < tracked_keys(keys).len() ==> !(#[trigger] tracked_keys(keys)[i]).is_null(),
        forall|k: KeyView|
            #[trigger] tracked_keys(keys).contains(k) <==> (keys.contains(k) && !k.is_null()),
    decreases keys.len(),
{
    if keys.len() > 0 {
        lemma_tracked_keys_shape(keys.drop_last());
        let front = tracked_keys(keys.drop_last());
        let k = keys.last();
        assert forall|k2: KeyView| keys.drop_last().contains(k2) implies keys.contains(k2) by {
            let w = choose|w: int| 0 <= w < keys.drop_last().len() && keys.drop_last()[w] == k2;
            assert(keys[w] == k2);
        }
        assert forall|k2: KeyView|
            #[trigger] tracked_keys(keys).contains(k2) implies (keys.contains(k2)
            && !k2.is_null()) by {
            if k.is_null() || front.contains(k) {
            } else {
                let w = choose|w: int|
                    0 <= w < tracked_keys(keys).len() && tracked_keys(keys)[w] == k2;
                if w < front.len() {
                    assert(front.contains(k2));
                } else {
                    assert(k2 == k);
                    assert(keys[keys.len() - 1] == k);
                }
            }
        }
        assert forall|k2: KeyView|
            keys.contains(k2) && !k2.is_null() implies #[trigger] tracked_keys(keys).contains(
            k2,
        ) by {
            let w = choose|w: int| 0 <= w < keys.len() && keys[w] == k2;
            if w < keys.len() - 1 {
                assert(keys.drop_last()[w] == k2);
                assert(front.contains(k2));
                let w2 = choose|w2: int| 0 <= w2 < front.len() && front[w2] == k2;
                if !(k.is_null() || front.contains(k)) {
                    assert(tracked_keys(keys)[w2] == k2);
                } else {
                    assert(tracked_keys(keys)[w2] == k2);
                }
            } else {
                assert(k2 == k);
                if front.contains(k) {
                    let w2 = choose|w2: int| 0 <= w2 < front.len() && front[w2] == k;
                    assert(tracked_keys(keys)[w2] == k);
                } else {
                    assert(tracked_keys(keys).last() == k);
                }
            }
        }
    }
}

/// The sentinel keys are pairwise distinct, all sentinels, and exactly the
/// batch's distinct sentinel keys.
pub proof fn lemma_sentinel_keys_shape(keys: Seq<KeyView>)
    ensures
        forall|i: int, j: int|
            0 <= i < j < sentinel_keys(keys).len() ==> sentinel_keys(keys)[i] != sentinel_keys(
                keys,
            )[j],
        forall|i: int|
            0 <= i < sentinel_keys(keys).len() ==> (#[trigger] sentinel_keys(keys)[i]).is_null(),
        forall|k: KeyView|
            #[trigger] sentinel_keys(keys).contains(k) <==> (keys.contains(k) && k.is_null()),
    decreases keys.len(),
{
    if keys.len() > 0 {
        lemma_sentinel_keys_shape(keys.drop_last());
        let front = sentinel_keys(keys.drop_last());
        let k = keys.last();
        assert forall|k2: KeyView| keys.drop_last().contains(k2) implies keys.contains(k2) by {
            let w = choose|w: int| 0 <= w < keys.drop_last().len() && keys.drop_last()[w] == k2;
            assert(keys[w] == k2);
        }
        assert forall|k2: KeyView|
            #[trigger] sentinel_keys(keys).contains(k2) implies (keys.contains(k2)
            && k2.is_null()) by {
            if k.is_null() && !front.contains(k) {
                let w = choose|w: int|
                    0 <= w < sentinel_keys(keys).len() && sentinel_keys(keys)[w] == k2;
                if w < front.len() {
                    assert(front.contains(k2));
                } else {
                    assert(k2 == k);
                    assert(keys[keys.len() - 1] == k);
                }
            }
        }
        assert forall|k2: KeyView|
            keys.contains(k2) && k2.is_null() implies #[trigger] sentinel_keys(keys).contains(
            k2,
        ) by {
            let w = choose|w: int| 0 <= w < keys.len() && keys[w] == k2;
            if w < keys.len() - 1 {
                assert(keys.drop_last()[w] == k2);
                assert(front.contains(k2));
                let w2 = choose|w2: int| 0 <= w2 < front.len() && front[w2] == k2;
                assert(sentinel_keys(keys)[w2] == k2);
            } else {
                assert(k2 == k);
                if front.contains(k) {
                    let w2 = choose|w2: int| 0 <= w2 < front.len() && front[w2] == k;
                    assert(sentinel_keys(keys)[w2] == k);
                } else {
                    assert(sentinel_keys(keys).last() == k);
                }
            }
        }
    }
}

/// The per-slot outcomes, slot by slot, when no failure cut the batch
/// short: one item per slot, found where the slot is satisfied, not found
/// where it is not.
pub proof fn lemma_slot_results_index(slots: Seq<SlotView>, requested: TreeAttributes)
    ensures
        slot_results(slots, requested, false).len() == slots.len(),
        forall|i: int|
            0 <= i < slots.len() ==> #[trigger] slot_results(slots, requested, false)[i] == (
            if slots[i].done(requested) {
                FetchItemView::Found(slots[i].key, slots[i].value.mask(requested))
            } else {
                FetchItemView::NotFound(slots[i].key)
            }),
    decreases slots.len(),
{
    if slots.len() > 0 {
        lemma_slot_results_index(slots.drop_last(), requested);
    }
}

/// Exactly-one-outcome: a batch that no whole-batch failure cut short
/// yields one terminal outcome per distinct key — as many outcomes as
/// distinct keys, no duplicates, no failure item, and every key of the
/// batch has its outcome.
pub proof fn lemma_exactly_one_outcome(
    s: TreeStoreView,
    keys: Seq<KeyView>,
    attrs: TreeAttributes,
    mode: FetchMode,
)
    requires
        !remote_fails(s, initial_slots(keys), attrs, mode),
    ensures
        ({
            let rs = spec_fetch_results(s, keys, attrs, mode);
            &&& rs.len() == sentinel_keys(keys).len() + tracked_keys(keys).len()
            &&& (forall|i: int| 0 <= i < rs.len() ==> !((#[trigger] rs[i]) is Failed))
            &&& (forall|i: int, j: int, k: KeyView|
                0 <= i < rs.len() && 0 <= j < rs.len() && #[trigger] item_has_key(rs[i], k)
                    && #[trigger] item_has_key(rs[j], k) ==> i == j)
            &&& (forall|k: KeyView|
                keys.contains(k) ==> exists|i: int|
                    0 <= i < rs.len() && #[trigger] item_has_key(rs[i], k))
        }),
{
    let rs = spec_fetch_results(s, keys, attrs, mode);
    let sl0 = initial_slots(keys);
    let fin = slots_final(s, sl0, attrs, mode);
    let t = tracker_final(s, keys, attrs, mode);
    crate::fetch::lemma_sentinel_items_shape(keys);
    lemma_sentinel_keys_shape(keys);
    lemma_tracked_keys_shape(keys);
    lemma_initial_slots_shape(keys);
    lemma_chain_preserves(s, sl0, attrs, mode);
    lemma_slot_results_index(fin, attrs);
    assert(!(failure_of(s, sl0, attrs, mode) is Some));
    let im = sentinel_keys(keys).len() as int;
    let sr = slot_results(fin, attrs, false);
    assert(rs =~= sentinel_items(keys) + sr);
    assert(rs.len() == sentinel_keys(keys).len() + tracked_keys(keys).len()) by {
        assert(slot_keys(sl0).len() == sl0.len());
        assert(slot_keys(sl0) == tracked_keys(keys));
    }
    assert(fin.len() == tracked_keys(keys).len()) by {
        assert(slot_keys(sl0).len() == sl0.len());
    }
    assert forall|i: int| 0 <= i < rs.len() implies !((#[trigger] rs[i]) is Failed) by {
        if i < im {
            assert(rs[i] == sentinel_items(keys)[i]);
        } else {
            assert(rs[i] == sr[i - im]);
        }
    }
    assert forall|i: int|
        0 <= i < rs.len() implies item_has_key(
        #[trigger] rs[i],
        (if i < im {
            sentinel_keys(keys)[i]
        } else {
            tracked_keys(keys)[i - im]
        }),
    ) by {
        if i < im {
            assert(rs[i] == sentinel_items(keys)[i]);
        } else {
            assert(rs[i] == sr[i - im]);
            assert(fin[i - im].key == sl0[i - im].key);
            assert(slot_keys(sl0)[i - im] == sl0[i - im].key);
        }
    }
    assert forall|i: int, j: int, k: KeyView|
        0 <= i < rs.len() && 0 <= j < rs.len() && #[trigger] item_has_key(rs[i], k)
            && #[trigger] item_has_key(rs[j], k) implies i == j by {
        let ki = if i < im {
            sentinel_keys(keys)[i]
        } else {
            tracked_keys(keys)[i - im]
        };
        let kj = if j < im {
            sentinel_keys(keys)[j]
        } else {
            tracked_keys(keys)[j - im]
        };
        assert(ki == k && kj == k);
        if i < im && j < im {
            if i != j {
                assert(sentinel_keys(keys)[i] != sentinel_keys(keys)[j]);
            }
        } else if i >= im && j >= im {
            if i != j {
                assert(tracked_keys(keys)[i - im] != tracked_keys(keys)[j - im]);
            }
        } else {
        }
    }
    assert forall|k: KeyView| keys.contains(k) implies exists|i: int|
        0 <= i < rs.len() && #[trigger] item_has_key(rs[i], k) by {
        if k.is_null() {
            assert(sentinel_keys(keys).contains(k));
            let w = choose|w: int|
                0 <= w < sentinel_keys(keys).len() && sentinel_keys(keys)[w] == k;
            assert(rs[w] == sentinel_items(keys)[w]);
            assert(item_has_key(rs[w], k));
        } else {
            assert(tracked_keys(keys).contains(k));
            let w = choose|w: int| 0 <= w < tracked_keys(keys).len() && tracked_keys(keys)[w] == k;
            assert(slot_keys(sl0)[w] == sl0[w].key);
            assert(fin[w].key == k);
            assert(rs[im + w] == sr[w]);
            assert(item_has_key(rs[im + w], k));
        }
    }
}

/// The outcome mapping and the store a batch leaves behind are a function
/// of the store's state, the keys, the mask and the mode alone: two equal
/// stores fed the same batch answer identically, whether a batch runs on
/// the caller's thread or is routed through a dedicated worker.
pub proof fn lemma_threaded_inline_equivalence(
    s1: TreeStoreView,
    s2: TreeStoreView,
    keys: Seq<KeyView>,
    attrs: TreeAttributes,
    mode: FetchMode,
)
    requires
        s1 == s2,
    ensures
        spec_fetch_results(s1, keys, attrs, mode) == spec_fetch_results(s2, keys, attrs, mode),
        spec_store_after(s1, keys, attrs, mode) == spec_store_after(s2, keys, attrs, mode),
{
}

/// Where no slot holding the key `k` is still pending content, a content
/// stage does not ask for `k`.
pub proof fn lemma_cpk_not_contains(slots: Seq<SlotView>, requested: TreeAttributes, k: KeyView)
    requires
        forall|i: int|
            0 <= i < slots.len() && (#[trigger] slots[i]).key == k ==> !slots[i].pending(
                requested,
            ).content,
    ensures
        !content_pending_keys(slots, requested).contains(k),
    decreases slots.len(),
{
    if slots.len() > 0 {
        lemma_cpk_not_contains(slots.drop_last(), requested, k);
        let c = content_pending_keys(slots, requested);
        let front = content_pending_keys(slots.drop_last(), requested);
        if c.contains(k) {
            let w = choose|w: int| 0 <= w < c.len() && c[w] == k;
            if slots.last().pending(requested).content {
                if w < front.len() {
                    assert(front[w] == k);
                    assert(front.contains(k));
                } else {
                    assert(c[w] == slots.last().key);
                    assert(slots[slots.len() - 1].key == k);
                }
            } else {
                assert(front[w] == k);
                assert(front.contains(k));
            }
        }
    }
}

/// Where no slot holding the key `k` is still pending parents, a history
/// stage does not ask for `k`.
pub proof fn lemma_ppk_not_contains(slots: Seq<SlotView>, requested: TreeAttributes, k: KeyView)
    requires
        forall|i: int|
            0 <= i < slots.len() && (#[trigger] slots[i]).key == k ==> !slots[i].pending(
                requested,
            ).parents,
    ensures
        !parents_pending_keys(slots, requested).contains(k),
    decreases slots.len(),
{
    if slots.len() > 0 {
        lemma_ppk_not_contains(slots.drop_last(), requested, k);
        let c = parents_pending_keys(slots, requested);
        let front = parents_pending_keys(slots.drop_last(), requested);
        if c.contains(k) {
            let w = choose|w: int| 0 <= w < c.len() && c[w] == k;
            if slots.last().pending(requested).parents {
                if w < front.len() {
                    assert(front[w] == k);
                    assert(front.contains(k));
                } else {
                    assert(c[w] == slots.last().key);
                    assert(slots[slots.len() - 1].key == k);
                }
            } else {
                assert(front[w] == k);
                assert(front.contains(k));
            }
        }
    }
}

/// Where no slot holding the key `k` has any pending facet, the remote
/// batch does not carry `k`.
pub proof fn lemma_rpk_not_contains(slots: Seq<SlotView>, requested: TreeAttributes, k: KeyView)
    requires
        forall|i: int|
            0 <= i < slots.len() && (#[trigger] slots[i]).key == k ==> slots[i].done(requested),
    ensures
        !remote_pending_keys(slots, requested).contains(k),
    decreases slots.len(),
{
    if slots.len() > 0 {
        lemma_rpk_not_contains(slots.drop_last(), requested, k);
        let c = remote_pending_keys(slots, requested);
        let front = remote_pending_keys(slots.drop_last(), requested);
        let p = slots.last().pending(requested);
        if c.contains(k) {
            let w = choose|w: int| 0 <= w < c.len() && c[w] == k;
            if p.content || p.parents {
                if w < front.len() {
                    assert(front[w] == k);
                    assert(front.contains(k));
                } else {
                    assert(c[w] == slots.last().key);
                    assert(slots[slots.len() - 1].key == k);
                    assert(slots[slots.len() - 1].done(requested));
                }
            } else {
                assert(front[w] == k);
                assert(front.contains(k));
            }
        }
    }
}

/// A sentinel key is answered immediately with the canonical empty value
/// and never reaches any tier: no stage's query batch contains it — not
/// the content logs', not the history tiers', not the remote client's, and
/// not the legacy store's.
pub proof fn lemma_sentinel_short_circuit(
    s: TreeStoreView,
    keys: Seq<KeyView>,
    attrs: TreeAttributes,
    mode: FetchMode,
    k: KeyView,
)
    requires
        keys.contains(k),
        k.is_null(),
    ensures
        ({
            let rs = spec_fetch_results(s, keys, attrs, mode);
            exists|i: int|
                0 <= i < rs.len() && #[trigger] rs[i] == FetchItemView::Found(
                    k,
                    canonical_empty_view(),
                )
        }),
        !content_pending_keys(initial_slots(keys), attrs).contains(k),
        !content_pending_keys(slots_after_cache_log(s, initial_slots(keys), attrs, mode), attrs).contains(k),
        !parents_pending_keys(slots_after_local_log(s, initial_slots(keys), attrs, mode), attrs).contains(k),
        !parents_pending_keys(slots_after_hist_cache(s, initial_slots(keys), attrs, mode), attrs).contains(k),
        !remote_keys_of(s, initial_slots(keys), attrs, mode).contains(k),
        !content_pending_keys(slots_after_remote(s, initial_slots(keys), attrs, mode), attrs).contains(k),
{
    let rs = spec_fetch_results(s, keys, attrs, mode);
    let sl0 = initial_slots(keys);
    crate::fetch::lemma_sentinel_items_shape(keys);
    lemma_sentinel_keys_shape(keys);
    lemma_tracked_keys_shape(keys);
    lemma_initial_slots_shape(keys);
    assert(sentinel_keys(keys).contains(k));
    let w = choose|w: int| 0 <= w < sentinel_keys(keys).len() && sentinel_keys(keys)[w] == k;
    assert(rs[w] == sentinel_items(keys)[w]) by {
        assert(rs =~= sentinel_items(keys) + (rs.subrange(
            sentinel_items(keys).len() as int,
            rs.len() as int,
        )));
    }
    assert(rs[w] == FetchItemView::Found(k, canonical_empty_view()));
    // every stage's query batch draws from slot keys, which stay the
    // tracked keys, and no tracked key is a sentinel
    lemma_chain_preserves(s, sl0, attrs, mode);
    lemma_local_chain_preserves(s, sl0, attrs, mode);
    let s1 = slots_after_cache_log(s, sl0, attrs, mode);
    let s2 = slots_after_local_log(s, sl0, attrs, mode);
    let s3 = slots_after_hist_cache(s, sl0, attrs, mode);
    let s4 = slots_after_local(s, sl0, attrs, mode);
    let s5 = slots_after_remote(s, sl0, attrs, mode);
    assert forall|i: int| 0 <= i < sl0.len() implies !((#[trigger] sl0[i]).key.is_null()) by {
        assert(slot_keys(sl0)[i] == sl0[i].key);
        assert(slot_keys(sl0)[i] == tracked_keys(keys)[i]);
    }
    lemma_stage_keys(s, sl0, attrs, mode);
    assert forall|i: int|
        0 <= i < sl0.len() implies (#[trigger] sl0[i]).key != k by {}
    assert forall|i: int|
        0 <= i < s1.len() implies (#[trigger] s1[i]).key != k by {
        assert(s1[i].key == sl0[i].key);
    }
    assert forall|i: int|
        0 <= i < s2.len() implies (#[trigger] s2[i]).key != k by {
        assert(s2[i].key == sl0[i].key);
    }
    assert forall|i: int|
        0 <= i < s3.len() implies (#[trigger] s3[i]).key != k by {
        assert(s3[i].key == sl0[i].key);
    }
    assert forall|i: int|
        0 <= i < s4.len() implies (#[trigger] s4[i]).key != k by {
        assert(s4[i].key == sl0[i].key);
    }
    assert forall|i: int|
        0 <= i < s5.len() implies (#[trigger] s5[i]).key != k by {
        assert(s5[i].key == sl0[i].key);
    }
    lemma_cpk_not_contains(sl0, attrs, k);
    lemma_cpk_not_contains(s1, attrs, k);
    lemma_ppk_not_contains(s2, attrs, k);
    lemma_ppk_not_contains(s3, attrs, k);
    lemma_rpk_not_contains(s4, attrs, k);
    lemma_cpk_not_contains(s5, attrs, k);
}

/// Every intermediate stage's slots keep the seeded keys.
pub proof fn lemma_stage_keys(
    s: TreeStoreView,
    slots0: Seq<SlotView>,
    attrs: TreeAttributes,
    mode: FetchMode,
)
    ensures
        ({
            let s1 = slots_after_cache_log(s, slots0, attrs, mode);
            let s2 = slots_after_local_log(s, slots0, attrs, mode);
            let s3 = slots_after_hist_cache(s, slots0, attrs, mode);
            let s4 = slots_after_local(s, slots0, attrs, mode);
            let s5 = slots_after_remote(s, slots0, attrs, mode);
            &&& s1.len() == slots0.len() && (forall|i: int|
                0 <= i < slots0.len() ==> (#[trigger] s1[i]).key == slots0[i].key)
            &&& s2.len() == slots0.len() && (forall|i: int|
                0 <= i < slots0.len() ==> (#[trigger] s2[i]).key == slots0[i].key)
            &&& s3.len() == slots0.len() && (forall|i: int|
                0 <= i < slots0.len() ==> (#[trigger] s3[i]).key == slots0[i].key)
            &&& s4.len() == slots0.len() && (forall|i: int|
                0 <= i < slots0.len() ==> (#[trigger] s4[i]).key == slots0[i].key)
            &&& s5.len() == slots0.len() && (forall|i: int|
                0 <= i < slots0.len() ==> (#[trigger] s5[i]).key == slots0[i].key)
        }),
{
    let s1 = slots_after_cache_log(s, slots0, attrs, mode);
    let s2 = slots_after_local_log(s, slots0, attrs, mode);
    let s3 = slots_after_hist_cache(s, slots0, attrs, mode);
    let s4 = slots_after_local(s, slots0, attrs, mode);
    if mode.local && s.indexedlog_cache is Some {
        crate::tree::lemma_log_stage_preserves(slots0, attrs, s.indexedlog_cache->0.entries);
    }
    if mode.local && s.indexedlog_local is Some {
        crate::tree::lemma_log_stage_preserves(s1, attrs, s.indexedlog_local->0.entries);
    }
    if mode.local && s.historystore_cache is Some {
        crate::tree::lemma_hist_stage_preserves(s2, attrs, s.historystore_cache->0.entries);
    }
    if mode.local && s.historystore_local is Some {
        crate::tree::lemma_hist_stage_preserves(s3, attrs, s.historystore_local->0.entries);
    }
    if remote_runs(s, slots0, attrs, mode) && !s.edenapi->0.broken {
        crate::tree::lemma_remote_stage_preserves(
            s4,
            attrs,
            crate::tree::response_of(s, slots0, attrs, mode),
        );
    }
}

/// One slot's state after the local stages, slot by slot.
pub open spec fn slot_after_local_single(
    s: TreeStoreView,
    sv: SlotView,
    attrs: TreeAttributes,
    mode: FetchMode,
) -> SlotView {
    let a = if mode.local && s.indexedlog_cache is Some {
        log_stage_slot(sv, attrs, s.indexedlog_cache->0.entries)
    } else {
        sv
    };
    let b = if mode.local && s.indexedlog_local is Some {
        log_stage_slot(a, attrs, s.indexedlog_local->0.entries)
    } else {
        a
    };
    let c = if mode.local && s.historystore_cache is Some {
        hist_stage_slot(b, attrs, s.historystore_cache->0.entries)
    } else {
        b
    };
    if mode.local && s.historystore_local is Some {
        hist_stage_slot(c, attrs, s.historystore_local->0.entries)
    } else {
        c
    }
}

/// For a singleton batch, the local stages act on the one slot alone.
pub proof fn lemma_singleton_local_trace(
    s: TreeStoreView,
    sv: SlotView,
    attrs: TreeAttributes,
    mode: FetchMode,
)
    ensures
        slots_after_local(s, seq![sv], attrs, mode) == seq![
            slot_after_local_single(s, sv, attrs, mode),
        ],
{
    let sl0 = seq![sv];
    let s1 = slots_after_cache_log(s, sl0, attrs, mode);
    let s2 = slots_after_local_log(s, sl0, attrs, mode);
    let s3 = slots_after_hist_cache(s, sl0, attrs, mode);
    let s4 = slots_after_local(s, sl0, attrs, mode);
    let a = if mode.local && s.indexedlog_cache is Some {
        log_stage_slot(sv, attrs, s.indexedlog_cache->0.entries)
    } else {
        sv
    };
    let b = if mode.local && s.indexedlog_local is Some {
        log_stage_slot(a, attrs, s.indexedlog_local->0.entries)
    } else {
        a
    };
    let c = if mode.local && s.historystore_cache is Some {
        hist_stage_slot(b, attrs, s.historystore_cache->0.entries)
    } else {
        b
    };
    if mode.local && s.indexedlog_cache is Some {
        crate::tree::lemma_log_stage_slots_index(sl0, attrs, s.indexedlog_cache->0.entries);
        assert(s1 =~= seq![a]);
    } else {
        assert(s1 =~= seq![a]);
    }
    if mode.local && s.indexedlog_local is Some {
        crate::tree::lemma_log_stage_slots_index(s1, attrs, s.indexedlog_local->0.entries);
        assert(s2 =~= seq![b]);
    } else {
        assert(s2 =~= seq![b]);
    }
    if mode.local && s.historystore_cache is Some {
        crate::tree::lemma_hist_stage_slots_index(s2, attrs, s.historystore_cache->0.entries);
        assert(s3 =~= seq![c]);
    } else {
        assert(s3 =~= seq![c]);
    }
    if mode.local && s.historystore_local is Some {
        crate::tree::lemma_hist_stage_slots_index(s3, attrs, s.historystore_local->0.entries);
        assert(s4 =~= seq![slot_after_local_single(s, sv, attrs, mode)]);
    } else {
        assert(s4 =~= seq![slot_after_local_single(s, sv, attrs, mode)]);
    }
}

/// Legacy-fallback gating: a key that only the legacy store holds is
/// reported not found while the fallback is disabled, and found — content
/// populated with the legacy store's bytes — once it is enabled.
pub proof fn lemma_legacy_fallback_gating(s: TreeStoreView, k: KeyView)
    requires
        !k.is_null(),
        s.contentstore matches Some(c) && assoc_lookup(c.entries, k.hgid) is Some,
        s.indexedlog_cache matches Some(x) ==> log_lookup(x.entries, k.hgid) is None,
        s.indexedlog_local matches Some(x) ==> log_lookup(x.entries, k.hgid) is None,
        s.edenapi matches Some(rc) ==> !rc.broken && remote_lookup(rc.entries, k.hgid) is None,
    ensures
        ({
            let attrs = TreeAttributes::spec_content();
            let off = FetchMode { local: true, remote: true, allow_legacy: false, prefetch: false };
            spec_fetch_results(s, seq![k], attrs, off) == seq![FetchItemView::NotFound(k)]
        }),
        ({
            let attrs = TreeAttributes::spec_content();
            let on = FetchMode::spec_allow_remote();
            spec_fetch_results(s, seq![k], attrs, on) == seq![
                FetchItemView::Found(
                    k,
                    crate::value::StoreTreeView {
                        content: Some(
                            crate::value::LazyTreeView::ContentStore(
                                assoc_lookup(s.contentstore->0.entries, k.hgid)->0,
                            ),
                        ),
                        parents: None,
                    },
                ),
            ]
        }),
{
    let attrs = TreeAttributes::spec_content();
    let sv = SlotView {
        key: k,
        value: crate::value::StoreTreeView { content: None, parents: None },
    };
    assert(seq![k].drop_last() =~= Seq::<KeyView>::empty());
    assert(initial_slots(Seq::<KeyView>::empty()) == Seq::<SlotView>::empty());
    assert(slot_keys(Seq::<SlotView>::empty()) =~= Seq::<KeyView>::empty());
    assert(!slot_keys(Seq::<SlotView>::empty()).contains(k));
    assert(initial_slots(seq![k]) =~= seq![sv]);
    let off = FetchMode { local: true, remote: true, allow_legacy: false, prefetch: false };
    let on = FetchMode::spec_allow_remote();
    lemma_gating_mode(s, k, off);
    lemma_gating_mode(s, k, on);
    lemma_singleton_batch(s, k, attrs, off);
    lemma_singleton_batch(s, k, attrs, on);
}

/// The slot trace shared by both gating cases: with every structured tier
/// missing the key, the slot is untouched until the legacy stage, which
/// supplies the content exactly when the mode admits it.
proof fn lemma_gating_mode(s: TreeStoreView, k: KeyView, mode: FetchMode)
    requires
        !k.is_null(),
        mode.local && mode.remote && !mode.prefetch,
        s.contentstore matches Some(c) && assoc_lookup(c.entries, k.hgid) is Some,
        s.indexedlog_cache matches Some(x) ==> log_lookup(x.entries, k.hgid) is None,
        s.indexedlog_local matches Some(x) ==> log_lookup(x.entries, k.hgid) is None,
        s.edenapi matches Some(rc) ==> !rc.broken && remote_lookup(rc.entries, k.hgid) is None,
    ensures
        ({
            let attrs = TreeAttributes::spec_content();
            let sl0 = initial_slots(seq![k]);
            let fin = slots_final(s, sl0, attrs, mode);
            &&& !remote_fails(s, sl0, attrs, mode)
            &&& fin.len() == 1
            &&& (mode.allow_legacy ==> fin[0] == SlotView {
                key: k,
                value: crate::value::StoreTreeView {
                    content: Some(
                        crate::value::LazyTreeView::ContentStore(
                            assoc_lookup(s.contentstore->0.entries, k.hgid)->0,
                        ),
                    ),
                    parents: None,
                },
            })
            &&& (!mode.allow_legacy ==> fin[0] == SlotView {
                key: k,
                value: crate::value::StoreTreeView { content: None, parents: None },
            })
        }),
{
    let attrs = TreeAttributes::spec_content();
    let sv = SlotView {
        key: k,
        value: crate::value::StoreTreeView { content: None, parents: None },
    };
    assert(seq![k].drop_last() =~= Seq::<KeyView>::empty());
    assert(initial_slots(Seq::<KeyView>::empty()) == Seq::<SlotView>::empty());
    assert(slot_keys(Seq::<SlotView>::empty()) =~= Seq::<KeyView>::empty());
    assert(!slot_keys(Seq::<SlotView>::empty()).contains(k));
    let sl0 = initial_slots(seq![k]);
    assert(sl0 =~= seq![sv]);
    lemma_singleton_local_trace(s, sv, attrs, mode);
    // no local tier changes the slot: the logs miss the hash and parents
    // are not requested
    assert(slot_after_local_single(s, sv, attrs, mode) == sv);
    let s4 = slots_after_local(s, sl0, attrs, mode);
    assert(s4 == seq![sv]);
    // the remote stage finds nothing for the key either
    assert(remote_pending_keys(s4, attrs) =~= seq![k]) by {
        assert(s4.drop_last() =~= Seq::<SlotView>::empty());
        assert(remote_pending_keys(Seq::<SlotView>::empty(), attrs) == Seq::<KeyView>::empty());
    }
    let s5 = slots_after_remote(s, sl0, attrs, mode);
    assert(s5 == seq![sv]) by {
        if remote_runs(s, sl0, attrs, mode) && !s.edenapi->0.broken {
            let resp = crate::tree::response_of(s, sl0, attrs, mode);
            assert(resp =~= Seq::<crate::value::RemoteTreeEntryView>::empty()) by {
                assert(seq![k].drop_last() =~= Seq::<KeyView>::empty());
                assert(remote_response(
                    s.edenapi->0.entries,
                    Seq::<KeyView>::empty(),
                    crate::tree::s_children_metadata(s, mode),
                ) =~= Seq::<crate::value::RemoteTreeEntryView>::empty());
            }
            assert(crate::tree::remote_stage_slots(s4, resp) == s4);
        }
    }
    assert(!remote_fails(s, sl0, attrs, mode));
    let fin = slots_final(s, sl0, attrs, mode);
    if mode.allow_legacy {
        assert(legacy_runs(s, sl0, attrs, mode));
        crate::tree::lemma_legacy_stage_slots_index(s5, attrs, s.contentstore->0.entries);
        assert(fin[0] == crate::tree::legacy_stage_slot(sv, attrs, s.contentstore->0.entries));
        assert(sv.pending(attrs).content);
        assert(fin.len() == 1);
    } else {
        assert(!legacy_runs(s, sl0, attrs, mode));
        assert(fin == s5);
    }
}

/// Write-back correctness: a remote hit with write-back enabled fills the
/// cache log, so a later local-only fetch of the same key is satisfied
/// without the remote client — its call count stays where the first fetch
/// left it.
pub proof fn lemma_write_back_serves_local(s: TreeStoreView, k: KeyView)
    requires
        !k.is_null(),
        s.cache_to_local_cache,
        s.indexedlog_cache matches Some(x) && log_lookup(x.entries, k.hgid) is None,
        s.indexedlog_local is None,
        s.edenapi matches Some(rc) && !rc.broken && remote_lookup(rc.entries, k.hgid) is Some,
    ensures
        ({
            let attrs = TreeAttributes::spec_content();
            let mode = FetchMode::spec_allow_remote();
            let s2 = spec_store_after(s, seq![k], attrs, mode);
            // the remotely fetched content now sits in the cache log
            &&& (s2.indexedlog_cache matches Some(c2) && log_lookup(c2.entries, k.hgid) is Some)
            // a local-only refetch is a hit, with no remote call made
            &&& (spec_fetch_results(s2, seq![k], attrs, FetchMode::spec_local_only())[0] is Found)
            &&& spec_fetch_results(s2, seq![k], attrs, FetchMode::spec_local_only()).len() == 1
            &&& spec_store_after(s2, seq![k], attrs, FetchMode::spec_local_only()).edenapi
                == s2.edenapi
        }),
{
    let attrs = TreeAttributes::spec_content();
    let mode = FetchMode::spec_allow_remote();
    let sv = SlotView {
        key: k,
        value: crate::value::StoreTreeView { content: None, parents: None },
    };
    assert(seq![k].drop_last() =~= Seq::<KeyView>::empty());
    assert(initial_slots(Seq::<KeyView>::empty()) == Seq::<SlotView>::empty());
    assert(slot_keys(Seq::<SlotView>::empty()) =~= Seq::<KeyView>::empty());
    assert(!slot_keys(Seq::<SlotView>::empty()).contains(k));
    let sl0 = initial_slots(seq![k]);
    assert(sl0 =~= seq![sv]);
    lemma_singleton_local_trace(s, sv, attrs, mode);
    assert(slot_after_local_single(s, sv, attrs, mode) == sv);
    let s4 = slots_after_local(s, sl0, attrs, mode);
    assert(s4 == seq![sv]);
    assert(remote_pending_keys(s4, attrs) =~= seq![k]) by {
        assert(s4.drop_last() =~= Seq::<SlotView>::empty());
        assert(remote_pending_keys(Seq::<SlotView>::empty(), attrs) == Seq::<KeyView>::empty());
    }
    assert(remote_runs(s, sl0, attrs, mode));
    let e = remote_lookup(s.edenapi->0.entries, k.hgid)->0;
    let cm = crate::tree::s_children_metadata(s, mode);
    let resp = crate::tree::response_of(s, sl0, attrs, mode);
    assert(resp =~= seq![crate::tiers::strip_children(e, cm)]) by {
        assert(seq![k].drop_last() =~= Seq::<KeyView>::empty());
        assert(remote_response(s.edenapi->0.entries, Seq::<KeyView>::empty(), cm)
            =~= Seq::<crate::value::RemoteTreeEntryView>::empty());
    }
    // the write-back appends the entry to the cache log
    let mid = crate::tree::cache_log_mid(s, sl0, attrs, mode);
    let s2 = spec_store_after(s, seq![k], attrs, mode);
    let e2 = crate::tiers::strip_children(e, cm);
    lemma_remote_lookup_hgid(s.edenapi->0.entries, k.hgid);
    assert(e2.key.hgid == k.hgid);
    assert(s2.indexedlog_cache == crate::tree::cache_log_after(s, sl0, attrs, mode));
    assert(s2.indexedlog_cache matches Some(c2) && log_lookup(c2.entries, k.hgid) is Some) by {
        let c1 = mid->0;
        assert(c1.entries == s.indexedlog_cache->0.entries);
        let wb = crate::tree::writeback_log(c1, resp);
        assert(resp.drop_last() =~= Seq::<crate::value::RemoteTreeEntryView>::empty());
        assert(crate::tree::writeback_log(
            c1,
            Seq::<crate::value::RemoteTreeEntryView>::empty(),
        ) == c1);
        assert(wb.entries == c1.entries.push(
            crate::value::EntryView {
                key: e2.key,
                data: e2.data,
                meta: crate::value::Metadata { size: None, flags: None },
            },
        ));
        crate::tiers::lemma_log_lookup_push(
            c1.entries,
            crate::value::EntryView {
                key: e2.key,
                data: e2.data,
                meta: crate::value::Metadata { size: None, flags: None },
            },
            k.hgid,
        );
    }
    // the second, local-only fetch hits the cache log
    let mode2 = FetchMode::spec_local_only();
    lemma_singleton_batch(s2, k, attrs, mode2);
    lemma_singleton_local_trace(s2, sv, attrs, mode2);
    let after1 = log_stage_slot(sv, attrs, s2.indexedlog_cache->0.entries);
    assert(sv.pending(attrs).content);
    assert(after1.value.content is Some);
    assert(slot_after_local_single(s2, sv, attrs, mode2) == after1) by {
        assert(s2.indexedlog_local is None);
        assert(!after1.pending(attrs).parents);
    }
    let sl0b = initial_slots(seq![k]);
    assert(sl0b =~= seq![sv]);
    let s4b = slots_after_local(s2, sl0b, attrs, mode2);
    assert(s4b == seq![after1]);
    assert(!remote_runs(s2, sl0b, attrs, mode2));
    assert(!remote_fails(s2, sl0b, attrs, mode2));
    assert(slots_after_remote(s2, sl0b, attrs, mode2) == s4b);
    let finb = slots_final(s2, sl0b, attrs, mode2);
    assert(finb[0].done(attrs)) by {
        if legacy_runs(s2, sl0b, attrs, mode2) {
            crate::tree::lemma_legacy_stage_slots_index(s4b, attrs, s2.contentstore->0.entries);
        }
    }
    assert(spec_fetch_results(s2, seq![k], attrs, mode2) == seq![
        singleton_outcome(s2, k, attrs, mode2),
    ]);
    assert(singleton_outcome(s2, k, attrs, mode2) is Found);
    assert(spec_store_after(s2, seq![k], attrs, mode2).edenapi == s2.edenapi);
}

/// A remote lookup's answer carries the hash it was asked for.
pub proof fn lemma_remote_lookup_hgid(entries: Seq<crate::value::RemoteTreeEntryView>, h: Seq<u8>)
    requires
        remote_lookup(entries, h) is Some,
    ensures
        remote_lookup(entries, h)->0.key.hgid == h,
        crate::tiers::strip_children(remote_lookup(entries, h)->0, false).key.hgid == h,
        crate::tiers::strip_children(remote_lookup(entries, h)->0, true).key.hgid == h,
    decreases entries.len(),
{
    if entries.len() > 0 && entries[0].key.hgid != h {
        lemma_remote_lookup_hgid(entries.drop_first(), h);
    }
}

/// A satisfied slot always gets its found outcome delivered, even when a
/// later failure cut the batch short.
pub proof fn lemma_slot_results_found_at(
    slots: Seq<SlotView>,
    requested: TreeAttributes,
    aborted: bool,
    w: int,
)
    requires
        0 <= w < slots.len(),
        slots[w].done(requested),
    ensures
        exists|j: int|
            0 <= j < slot_results(slots, requested, aborted).len() && #[trigger] slot_results(
                slots,
                requested,
                aborted,
            )[j] == FetchItemView::Found(slots[w].key, slots[w].value.mask(requested)),
    decreases slots.len(),
{
    let sr = slot_results(slots, requested, aborted);
    let front = slot_results(slots.drop_last(), requested, aborted);
    if w == slots.len() - 1 {
        assert(sr[front.len() as int] == FetchItemView::Found(
            slots[w].key,
            slots[w].value.mask(requested),
        ));
    } else {
        assert(slots.drop_last()[w] == slots[w]);
        lemma_slot_results_found_at(slots.drop_last(), requested, aborted, w);
        let j = choose|j: int|
            0 <= j < front.len() && front[j] == FetchItemView::Found(
                slots.drop_last()[w].key,
                slots.drop_last()[w].value.mask(requested),
            );
        assert(sr[j] == front[j]);
    }
}

/// First-hit-wins, for any tier: satisfaction is monotone down the
/// waterfall, so once the tier at any point of it has supplied every
/// requested facet of a key, no later tier's query batch — the content
/// logs', the history tiers', the remote client's, the legacy store's —
/// contains the key, and the key's terminal outcome is found with every
/// requested facet populated.
pub proof fn lemma_first_hit_wins(
    s: TreeStoreView,
    keys: Seq<KeyView>,
    attrs: TreeAttributes,
    mode: FetchMode,
    w: int,
)
    requires
        0 <= w < initial_slots(keys).len(),
    ensures
        ({
            let sl0 = initial_slots(keys);
            let kk = sl0[w].key;
            let rs = spec_fetch_results(s, keys, attrs, mode);
            let s1 = slots_after_cache_log(s, sl0, attrs, mode);
            let s2 = slots_after_local_log(s, sl0, attrs, mode);
            let s3 = slots_after_hist_cache(s, sl0, attrs, mode);
            let s4 = slots_after_local(s, sl0, attrs, mode);
            let s5 = slots_after_remote(s, sl0, attrs, mode);
            let fin = slots_final(s, sl0, attrs, mode);
            // a slot once satisfied stays satisfied through every stage
            &&& (sl0[w].done(attrs) ==> s1[w].done(attrs))
            &&& (s1[w].done(attrs) ==> s2[w].done(attrs))
            &&& (s2[w].done(attrs) ==> s3[w].done(attrs))
            &&& (s3[w].done(attrs) ==> s4[w].done(attrs))
            &&& (s4[w].done(attrs) ==> s5[w].done(attrs))
            &&& (s5[w].done(attrs) ==> fin[w].done(attrs))
            // and each tier's query batch excludes a key satisfied before
            // that tier runs: the cache log's, the local log's, the two
            // history tiers', the remote client's, the legacy store's
            &&& (sl0[w].done(attrs) ==> !content_pending_keys(sl0, attrs).contains(kk))
            &&& (s1[w].done(attrs) ==> !content_pending_keys(s1, attrs).contains(kk))
            &&& (s2[w].done(attrs) ==> !parents_pending_keys(s2, attrs).contains(kk))
            &&& (s3[w].done(attrs) ==> !parents_pending_keys(s3, attrs).contains(kk))
            &&& (s4[w].done(attrs) ==> !remote_pending_keys(s4, attrs).contains(kk))
            &&& (s5[w].done(attrs) ==> !content_pending_keys(s5, attrs).contains(kk))
            // a satisfied key's outcome is found, with every requested facet
            &&& (fin[w].done(attrs) ==> exists|i: int|
                0 <= i < rs.len() && (#[trigger] rs[i]) is Found && rs[i]->Found_0 == kk
                    && rs[i]->Found_1.attrs().contains(attrs))
        }),
{
    let sl0 = initial_slots(keys);
    let kk = sl0[w].key;
    let rs = spec_fetch_results(s, keys, attrs, mode);
    let s1 = slots_after_cache_log(s, sl0, attrs, mode);
    let s2 = slots_after_local_log(s, sl0, attrs, mode);
    let s3 = slots_after_hist_cache(s, sl0, attrs, mode);
    let s4 = slots_after_local(s, sl0, attrs, mode);
    let s5 = slots_after_remote(s, sl0, attrs, mode);
    let fin = slots_final(s, sl0, attrs, mode);
    lemma_tracked_keys_shape(keys);
    lemma_initial_slots_shape(keys);
    lemma_stage_keys(s, sl0, attrs, mode);
    // the seeded keys are pairwise distinct, so each stage's slots hold the
    // key exactly once
    assert forall|i: int, j: int|
        0 <= i < j < sl0.len() implies (#[trigger] sl0[i]).key != (#[trigger] sl0[j]).key by {
        assert(slot_keys(sl0)[i] == sl0[i].key);
        assert(slot_keys(sl0)[j] == sl0[j].key);
        assert(tracked_keys(keys)[i] != tracked_keys(keys)[j]);
    }
    // satisfaction is monotone down the waterfall
    if mode.local && s.indexedlog_cache is Some {
        crate::tree::lemma_log_stage_preserves(sl0, attrs, s.indexedlog_cache->0.entries);
    }
    if mode.local && s.indexedlog_local is Some {
        crate::tree::lemma_log_stage_preserves(s1, attrs, s.indexedlog_local->0.entries);
    }
    if mode.local && s.historystore_cache is Some {
        crate::tree::lemma_hist_stage_preserves(s2, attrs, s.historystore_cache->0.entries);
    }
    if mode.local && s.historystore_local is Some {
        crate::tree::lemma_hist_stage_preserves(s3, attrs, s.historystore_local->0.entries);
    }
    if remote_runs(s, sl0, attrs, mode) && !s.edenapi->0.broken {
        crate::tree::lemma_remote_stage_preserves(
            s4,
            attrs,
            crate::tree::response_of(s, sl0, attrs, mode),
        );
    }
    if legacy_runs(s, sl0, attrs, mode) {
        crate::tree::lemma_legacy_stage_preserves(s5, attrs, s.contentstore->0.entries);
    }
    // a satisfied slot is excluded from every later query batch
    if sl0[w].done(attrs) {
        assert forall|i: int|
            0 <= i < sl0.len() && (#[trigger] sl0[i]).key == kk implies !sl0[i].pending(
            attrs,
        ).content by {}
        lemma_cpk_not_contains(sl0, attrs, kk);
    }
    if s1[w].done(attrs) {
        assert forall|i: int|
            0 <= i < s1.len() && (#[trigger] s1[i]).key == kk implies !s1[i].pending(
            attrs,
        ).content by {
            if i != w {
                assert(s1[i].key == sl0[i].key);
                assert(s1[w].key == sl0[w].key);
            }
        }
        lemma_cpk_not_contains(s1, attrs, kk);
    }
    if s2[w].done(attrs) {
        assert forall|i: int|
            0 <= i < s2.len() && (#[trigger] s2[i]).key == kk implies !s2[i].pending(
            attrs,
        ).parents by {
            if i != w {
                assert(s2[i].key == sl0[i].key);
            }
        }
        lemma_ppk_not_contains(s2, attrs, kk);
    }
    if s3[w].done(attrs) {
        assert forall|i: int|
            0 <= i < s3.len() && (#[trigger] s3[i]).key == kk implies !s3[i].pending(
            attrs,
        ).parents by {
            if i != w {
                assert(s3[i].key == sl0[i].key);
            }
        }
        lemma_ppk_not_contains(s3, attrs, kk);
    }
    if s4[w].done(attrs) {
        assert forall|i: int|
            0 <= i < s4.len() && (#[trigger] s4[i]).key == kk implies s4[i].done(attrs) by {
            if i != w {
                assert(s4[i].key == sl0[i].key);
            }
        }
        lemma_rpk_not_contains(s4, attrs, kk);
    }
    if s5[w].done(attrs) {
        assert forall|i: int|
            0 <= i < s5.len() && (#[trigger] s5[i]).key == kk implies !s5[i].pending(
            attrs,
        ).content by {
            if i != w {
                assert(s5[i].key == sl0[i].key);
            }
        }
        lemma_cpk_not_contains(s5, attrs, kk);
    }
    // a satisfied key's outcome is delivered, found, with every requested
    // facet
    if fin[w].done(attrs) {
        assert(fin[w].key == kk);
        let failure = failure_of(s, sl0, attrs, mode);
        lemma_slot_results_found_at(fin, attrs, failure is Some, w);
        let sr = slot_results(fin, attrs, failure is Some);
        let j = choose|j: int|
            0 <= j < sr.len() && sr[j] == FetchItemView::Found(
                fin[w].key,
                fin[w].value.mask(attrs),
            );
        let im = sentinel_items(keys).len() as int;
        assert(rs[im + j] == sr[j]) by {
            assert(rs =~= sentinel_items(keys) + sr + (match failure {
                Some(e) => seq![FetchItemView::Failed(e)],
                None => Seq::<FetchItemView>::empty(),
            }));
        }
        assert(fin[w].value.mask(attrs).attrs().contains(attrs)) by {
            assert(fin[w].pending(attrs).is_empty());
        }
        assert(rs[im + j] is Found && rs[im + j]->Found_0 == kk
            && rs[im + j]->Found_1.attrs().contains(attrs));
        assert(0 <= im + j < rs.len());
    }
}

/// The three-key waterfall: for any batch of three distinct non-sentinel
/// keys where the first sits in the cache log, the second is held only by
/// the remote server, and the third is absent everywhere, with the remote
/// enabled and the legacy fallback disabled, the batch delivers exactly
/// three outcomes — the first found with the cache entry's bytes, the
/// second found with the remote entry's bytes, the third not found — and
/// the remote client is invoked exactly once, asked exactly for the two
/// keys the local tiers had not satisfied.
pub proof fn lemma_three_key_waterfall(s: TreeStoreView, a: KeyView, b: KeyView, c: KeyView)
    requires
        !a.is_null() && !b.is_null() && !c.is_null(),
        a != b && a != c && b != c,
        s.indexedlog_cache matches Some(cache) && log_lookup(cache.entries, a.hgid) is Some
            && log_lookup(cache.entries, b.hgid) is None && log_lookup(cache.entries, c.hgid)
            is None,
        s.indexedlog_local matches Some(x) ==> log_lookup(x.entries, b.hgid) is None && log_lookup(
            x.entries,
            c.hgid,
        ) is None,
        s.edenapi matches Some(rc) && !rc.broken && remote_lookup(rc.entries, c.hgid) is None && (
        remote_lookup(rc.entries, b.hgid) matches Some(e) && e.key == b),
    ensures
        ({
            let attrs = TreeAttributes::spec_content();
            let mode = FetchMode { local: true, remote: true, allow_legacy: false, prefetch: false };
            let keys = seq![a, b, c];
            let rs = spec_fetch_results(s, keys, attrs, mode);
            let ea = log_lookup(s.indexedlog_cache->0.entries, a.hgid)->0;
            let eb = crate::tiers::strip_children(
                remote_lookup(s.edenapi->0.entries, b.hgid)->0,
                crate::tree::s_children_metadata(s, mode),
            );
            let s2 = spec_store_after(s, keys, attrs, mode);
            // exactly three outcomes, one per key, in request order
            &&& rs == seq![
                FetchItemView::Found(
                    a,
                    crate::value::StoreTreeView {
                        content: Some(crate::value::LazyTreeView::IndexedLog(ea)),
                        parents: None,
                    },
                ),
                FetchItemView::Found(
                    b,
                    crate::value::StoreTreeView {
                        content: Some(crate::value::LazyTreeView::SaplingRemoteApi(eb)),
                        parents: None,
                    },
                ),
                FetchItemView::NotFound(c),
            ]
            // the found contents are byte-identical to their sources
            &&& rs[0]->Found_1.content->0.content_bytes() == ea.data
            &&& rs[1]->Found_1.content->0.content_bytes() == remote_lookup(
                s.edenapi->0.entries,
                b.hgid,
            )->0.data
            // the remote client was invoked exactly once, asked exactly for
            // the two keys the local tiers had not satisfied
            &&& (s2.edenapi matches Some(rc2) && rc2.calls == crate::metrics::spec_sat_add(
                s.edenapi->0.calls,
                1,
            ) && rc2.requested == s.edenapi->0.requested + seq![b, c])
        }),
{
    let attrs = TreeAttributes::spec_content();
    let mode = FetchMode { local: true, remote: true, allow_legacy: false, prefetch: false };
    let keys = seq![a, b, c];
    let empty_value = crate::value::StoreTreeView { content: None, parents: None };
    let sva = SlotView { key: a, value: empty_value };
    let svb = SlotView { key: b, value: empty_value };
    let svc = SlotView { key: c, value: empty_value };
    // the tracker seeds one slot per key, in order
    assert(keys.drop_last() =~= seq![a, b]);
    assert(seq![a, b].drop_last() =~= seq![a]);
    assert(seq![a].drop_last() =~= Seq::<KeyView>::empty());
    assert(initial_slots(Seq::<KeyView>::empty()) == Seq::<SlotView>::empty());
    assert(slot_keys(Seq::<SlotView>::empty()) =~= Seq::<KeyView>::empty());
    assert(initial_slots(seq![a]) =~= seq![sva]);
    assert(slot_keys(seq![sva]) =~= seq![a]);
    assert(!slot_keys(seq![sva]).contains(b)) by {
        assert(forall|i: int| 0 <= i < 1 ==> slot_keys(seq![sva])[i] == a);
    }
    assert(initial_slots(seq![a, b]) =~= seq![sva, svb]);
    assert(slot_keys(seq![sva, svb]) =~= seq![a, b]);
    assert(!slot_keys(seq![sva, svb]).contains(c)) by {
        assert(forall|i: int| 0 <= i < 2 ==> slot_keys(seq![sva, svb])[i] == seq![a, b][i]);
    }
    let sl0 = initial_slots(keys);
    assert(sl0 =~= seq![sva, svb, svc]);
    // the cache log satisfies the first key and misses the other two
    let ea = log_lookup(s.indexedlog_cache->0.entries, a.hgid)->0;
    let sva1 = SlotView {
        key: a,
        value: crate::value::StoreTreeView {
            content: Some(crate::value::LazyTreeView::IndexedLog(ea)),
            parents: None,
        },
    };
    crate::tree::lemma_log_stage_slots_index(sl0, attrs, s.indexedlog_cache->0.entries);
    let s1 = slots_after_cache_log(s, sl0, attrs, mode);
    assert(sva.pending(attrs).content);
    assert(sva.value.merge(crate::tree::log_entry_value(ea)) =~= sva1.value);
    assert(s1 =~= seq![sva1, svb, svc]);
    // the local log, if configured, misses both remaining keys; the first
    // is already satisfied and not asked
    let s2 = slots_after_local_log(s, sl0, attrs, mode);
    assert(s2 =~= seq![sva1, svb, svc]) by {
        if s.indexedlog_local is Some {
            crate::tree::lemma_log_stage_slots_index(s1, attrs, s.indexedlog_local->0.entries);
            assert(!sva1.pending(attrs).content);
        }
    }
    // parents are not requested, so the history tiers change nothing
    let s3 = slots_after_hist_cache(s, sl0, attrs, mode);
    let s4 = slots_after_local(s, sl0, attrs, mode);
    assert(s3 =~= seq![sva1, svb, svc]) by {
        if s.historystore_cache is Some {
            crate::tree::lemma_hist_stage_slots_index(s2, attrs, s.historystore_cache->0.entries);
        }
    }
    assert(s4 =~= seq![sva1, svb, svc]) by {
        if s.historystore_local is Some {
            crate::tree::lemma_hist_stage_slots_index(s3, attrs, s.historystore_local->0.entries);
        }
    }
    // the remote batch carries exactly the two unsatisfied keys
    assert(s4.drop_last() =~= seq![sva1, svb]);
    assert(seq![sva1, svb].drop_last() =~= seq![sva1]);
    assert(seq![sva1].drop_last() =~= Seq::<SlotView>::empty());
    assert(remote_pending_keys(Seq::<SlotView>::empty(), attrs) == Seq::<KeyView>::empty());
    assert(remote_pending_keys(seq![sva1], attrs) =~= Seq::<KeyView>::empty());
    assert(remote_pending_keys(seq![sva1, svb], attrs) =~= seq![b]);
    let rkeys = remote_keys_of(s, sl0, attrs, mode);
    assert(rkeys =~= seq![b, c]);
    assert(remote_runs(s, sl0, attrs, mode));
    assert(!remote_fails(s, sl0, attrs, mode));
    // the response holds the one entry the server knows
    let cm = crate::tree::s_children_metadata(s, mode);
    let eb = crate::tiers::strip_children(remote_lookup(s.edenapi->0.entries, b.hgid)->0, cm);
    let resp = crate::tree::response_of(s, sl0, attrs, mode);
    assert(rkeys.drop_last() =~= seq![b]);
    assert(seq![b].drop_last() =~= Seq::<KeyView>::empty());
    assert(remote_response(s.edenapi->0.entries, Seq::<KeyView>::empty(), cm)
        == Seq::<crate::value::RemoteTreeEntryView>::empty());
    assert(remote_response(s.edenapi->0.entries, seq![b], cm)
        =~= Seq::<crate::value::RemoteTreeEntryView>::empty().push(eb));
    assert(resp =~= seq![eb]);
    // merging the entry satisfies the second key's slot
    let svb1 = SlotView {
        key: b,
        value: crate::value::StoreTreeView {
            content: Some(crate::value::LazyTreeView::SaplingRemoteApi(eb)),
            parents: eb.parents,
        },
    };
    let s5 = slots_after_remote(s, sl0, attrs, mode);
    assert(s5 =~= seq![sva1, svb1, svc]) by {
        assert(resp.drop_last() =~= Seq::<crate::value::RemoteTreeEntryView>::empty());
        assert(crate::tree::remote_stage_slots(s4, Seq::<crate::value::RemoteTreeEntryView>::empty())
            == s4);
        assert(eb.key == b);
        crate::fetch::lemma_find_slot_at(s4, b, 1);
        assert(crate::fetch::find_slot(s4, b) == Some(1int));
        assert(svb.value.merge(crate::tree::remote_entry_value(eb)) =~= svb1.value);
        assert(crate::tree::remote_entry_slots(s4, eb) =~= seq![sva1, svb1, svc]);
    }
    // the fallback is disabled, so the legacy store is not consulted
    assert(!legacy_runs(s, sl0, attrs, mode));
    let fin = slots_final(s, sl0, attrs, mode);
    assert(fin =~= seq![sva1, svb1, svc]);
    // three outcomes, in request order: found, found, not found
    assert(sentinel_keys(Seq::<KeyView>::empty()) == Seq::<KeyView>::empty());
    assert(sentinel_keys(seq![a]) =~= Seq::<KeyView>::empty());
    assert(sentinel_keys(seq![a, b]) =~= Seq::<KeyView>::empty());
    assert(sentinel_keys(keys) =~= Seq::<KeyView>::empty());
    assert(sentinel_items(keys) =~= Seq::<FetchItemView>::empty()) by {
        crate::fetch::lemma_sentinel_items_shape(keys);
    }
    lemma_slot_results_index(fin, attrs);
    assert(fin[0].done(attrs) && fin[1].done(attrs) && !fin[2].done(attrs));
    assert(fin[0].value.mask(attrs) =~= sva1.value);
    assert(fin[1].value.mask(attrs) =~= crate::value::StoreTreeView {
        content: Some(crate::value::LazyTreeView::SaplingRemoteApi(eb)),
        parents: None,
    });
    let rs = spec_fetch_results(s, keys, attrs, mode);
    assert(rs =~= seq![
        FetchItemView::Found(a, sva1.value),
        FetchItemView::Found(
            b,
            crate::value::StoreTreeView {
                content: Some(crate::value::LazyTreeView::SaplingRemoteApi(eb)),
                parents: None,
            },
        ),
        FetchItemView::NotFound(c),
    ]);
    // the remote client's call count and request log
    assert(spec_store_after(s, keys, attrs, mode).edenapi == crate::tree::edenapi_after(
        s,
        sl0,
        attrs,
        mode,
    ));
}

} // verus!
