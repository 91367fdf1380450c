//! Batch bookkeeping: the fetch mode, the per-key terminal outcomes, the
//! pull-based result collection, and the pending tracker that drives the
//! tier waterfall.

use vstd::prelude::*;

use crate::attrs::TreeAttributes;
use crate::error::StoreError;
use crate::types::{keys_view, null_hash, Key, KeyView};
use crate::value::{LazyTreeView, StoreTree, StoreTreeView};

verus! {

/// Which tiers a fetch may consult: the local tiers, the remote client,
/// and the legacy fallback store; `prefetch` marks a prefetch-style call,
/// which opts into extra child metadata when the store is configured so.
#[derive(Clone, Copy, Debug, PartialEq, Eq, Structural)]
pub struct FetchMode {
    pub local: bool,
    pub remote: bool,
    pub allow_legacy: bool,
    pub prefetch: bool,
}

impl FetchMode {
    pub open spec fn spec_local_only() -> FetchMode {
        FetchMode { local: true, remote: false, allow_legacy: false, prefetch: false }
    }

    /// Consult the local tiers only.
    #[verifier::when_used_as_spec(spec_local_only)]
    pub fn local_only() -> (r: FetchMode)
        ensures
            r == FetchMode::spec_local_only(),
    {
        FetchMode { local: true, remote: false, allow_legacy: false, prefetch: false }
    }

    pub open spec fn spec_allow_remote() -> FetchMode {
        FetchMode { local: true, remote: true, allow_legacy: true, prefetch: false }
    }

    /// Consult every tier, the legacy fallback included.
    #[verifier::when_used_as_spec(spec_allow_remote)]
    pub fn allow_remote() -> (r: FetchMode)
        ensures
            r == FetchMode::spec_allow_remote(),
    {
        FetchMode { local: true, remote: true, allow_legacy: true, prefetch: false }
    }

    pub open spec fn spec_remote_only() -> FetchMode {
        FetchMode { local: false, remote: true, allow_legacy: false, prefetch: false }
    }

    /// Consult the remote client only.
    #[verifier::when_used_as_spec(spec_remote_only)]
    pub fn remote_only() -> (r: FetchMode)
        ensures
            r == FetchMode::spec_remote_only(),
    {
        FetchMode { local: false, remote: true, allow_legacy: false, prefetch: false }
    }

    pub open spec fn spec_with_prefetch(self) -> FetchMode {
        FetchMode { prefetch: true, ..self }
    }

    /// The same mode, marked as a prefetch-style call.
    #[verifier::when_used_as_spec(spec_with_prefetch)]
    pub fn with_prefetch(self) -> (r: FetchMode)
        ensures
            r == self.spec_with_prefetch(),
    {
        FetchMode { prefetch: true, ..self }
    }
}

/// The view of a terminal outcome.
#[verifier::ext_equal]
pub enum FetchItemView {
    /// Every requested facet of the key was found.
    Found(KeyView, StoreTreeView),
    /// No eligible tier could satisfy the key's remaining facets.
    NotFound(KeyView),
    /// The whole batch failed; no further outcomes follow.
    Failed(StoreError),
}

/// One item delivered through the result channel: a per-key terminal
/// outcome, or a single whole-batch failure.
#[derive(Debug)]
pub enum FetchItem {
    /// Every requested facet of the key was found.
    Found(Key, StoreTree),
    /// No eligible tier could satisfy the key's remaining facets.
    NotFound(Key),
    /// The whole batch failed; no further outcomes follow.
    Failed(StoreError),
}

impl View for FetchItem {
    type V = FetchItemView;

    open spec fn view(&self) -> FetchItemView {
        match self {
            FetchItem::Found(k, v) => FetchItemView::Found(k@, v@),
            FetchItem::NotFound(k) => FetchItemView::NotFound(k@),
            FetchItem::Failed(e) => FetchItemView::Failed(*e),
        }
    }
}

/// The views of a sequence of items.
pub open spec fn items_view(s: Seq<FetchItem>) -> Seq<FetchItemView> {
    s.map_values(|it: FetchItem| it@)
}

/// The canonical value of the empty object: empty content, no parents.
pub open spec fn canonical_empty_view() -> StoreTreeView {
    StoreTreeView {
        content: Some(LazyTreeView::ContentStore(Seq::<u8>::empty())),
        parents: Some(crate::types::ParentsView { p1: null_hash(), p2: null_hash() }),
    }
}

/// The error of the first failure item, if any item is a failure.
pub open spec fn first_failure(items: Seq<FetchItemView>) -> Option<StoreError>
    decreases items.len(),
{
    if items.len() == 0 {
        None
    } else if items[0] is Failed {
        Some(items[0]->Failed_0)
    } else {
        first_failure(items.drop_first())
    }
}

/// The keys of the not-found items, in delivery order.
pub open spec fn missing_keys(items: Seq<FetchItemView>) -> Seq<KeyView>
    decreases items.len(),
{
    if items.len() == 0 {
        Seq::empty()
    } else {
        let front = missing_keys(items.drop_last());
        match items.last() {
            FetchItemView::NotFound(k) => front.push(k),
            _ => front,
        }
    }
}

/// The per-key outcomes of one batch fetch, pulled by the caller: each
/// requested key gets exactly one terminal outcome, found or not found,
/// unless a whole-batch failure cut the batch short.
#[derive(Debug)]
pub struct FetchResults {
    items: Vec<FetchItem>,
}

impl View for FetchResults {
    type V = Seq<FetchItemView>;

    closed spec fn view(&self) -> Seq<FetchItemView> {
        items_view(self.items@)
    }
}

impl FetchResults {
    /// Wraps a finished batch's outcomes for the caller to pull.
    pub fn from_items(items: Vec<FetchItem>) -> (r: FetchResults)
        ensures
            r@ == items_view(items@),
    {
        FetchResults { items }
    }

    /// How many items the batch produced.
    pub fn len(&self) -> (r: usize)
        ensures
            r == self@.len(),
    {
        self.items.len()
    }

    /// Hands the outcomes out, in delivery order.
    pub fn into_items(self) -> (r: Vec<FetchItem>)
        ensures
            items_view(r@) == self@,
    {
        self.items
    }

    /// Reads the batch that a singleton request produced: the found value,
    /// nothing for a miss, the failure for a failed batch. Anything other
    /// than exactly one terminal outcome fails loudly.
    pub fn single(self) -> (r: Result<Option<StoreTree>, StoreError>)
        ensures
            self@.len() != 1 ==> r == Err::<Option<StoreTree>, StoreError>(StoreError::NotSingle),
            self@.len() == 1 ==> match self@[0] {
                FetchItemView::Found(k, v) => r matches Ok(t) && t matches Some(st) && st@ == v,
                FetchItemView::NotFound(k) => r == Ok::<Option<StoreTree>, StoreError>(None),
                FetchItemView::Failed(e) => r == Err::<Option<StoreTree>, StoreError>(e),
            },
    {
        if self.items.len() != 1 {
            return Err(StoreError::NotSingle);
        }
        let mut items = self.items;
        let item = items.pop().unwrap();
        match item {
            FetchItem::Found(_k, v) => Ok(Some(v)),
            FetchItem::NotFound(_k) => Ok(None),
            FetchItem::Failed(e) => Err(e),
        }
    }

    /// The keys the batch reported not found, or the batch's failure.
    pub fn missing(self) -> (r: Result<Vec<Key>, StoreError>)
        ensures
            match r {
                Ok(ks) => first_failure(self@) is None && keys_view(ks@) == missing_keys(self@),
                Err(e) => first_failure(self@) == Some(e),
            },
    {
        let mut out: Vec<Key> = Vec::new();
        proof {
            assert(keys_view(out@) =~= missing_keys(self@.take(0)));
        }
        let mut i: usize = 0;
        while i < self.items.len()
            invariant
                i <= self.items.len(),
                self@ == items_view(self.items@),
                keys_view(out@) == missing_keys(self@.take(i as int)),
                first_failure(self@.take(i as int)) is None,
            decreases self.items.len() - i,
        {
            let ghost prefix = self@.take(i as int);
            match &self.items[i] {
                FetchItem::Failed(e) => {
                    proof {
                        lemma_first_failure_at(self@, i as int, *e);
                    }
                    return Err(*e);
                }
                FetchItem::NotFound(k) => {
                    let ghost pre = out@;
                    out.push(k.clone());
                    proof {
                        assert(out@ =~= pre.push(out@.last()));
                        assert(keys_view(out@) =~= keys_view(pre).push(self@[i as int]->NotFound_0));
                    }
                }
                FetchItem::Found(_k, _v) => {
                }
            }
            i = i + 1;
            proof {
                let taken = self@.take(i as int);
                assert(taken.drop_last() =~= prefix);
                assert(taken.last() == self@[i - 1]);
                assert(keys_view(out@) =~= missing_keys(taken));
                lemma_first_failure_take_step(self@, i as int);
            }
        }
        proof {
            assert(self@.take(self@.len() as int) =~= self@);
        }
        Ok(out)
    }

    /// Drains the batch, discarding the outcomes.
    pub fn consume(self) {
    }
}

/// Where the item at `i` is the first failure, `first_failure` returns its
/// error.
proof fn lemma_first_failure_at(items: Seq<FetchItemView>, i: int, e: StoreError)
    requires
        0 <= i < items.len(),
        items[i] == FetchItemView::Failed(e),
        first_failure(items.take(i)) is None,
    ensures
        first_failure(items) == Some(e),
    decreases i,
{
    if i == 0 {
    } else {
        assert(items.take(i).drop_first() =~= items.drop_first().take(i - 1));
        lemma_first_failure_at(items.drop_first(), i - 1, e);
    }
}

/// Extending a failure-free prefix by a non-failure item keeps it
/// failure-free.
proof fn lemma_first_failure_take_step(items: Seq<FetchItemView>, i: int)
    requires
        0 < i <= items.len(),
        first_failure(items.take(i - 1)) is None,
        !(items[i - 1] is Failed),
    ensures
        first_failure(items.take(i)) is None,
    decreases i,
{
    if i == 1 {
        assert(items.take(1)[0] == items[0]);
        assert(items.take(1).drop_first() =~= Seq::<FetchItemView>::empty());
        assert(first_failure(Seq::<FetchItemView>::empty()) is None);
    } else {
        assert(items.take(i)[0] == items[0]);
        assert(items.take(i - 1)[0] == items[0]);
        if !(items[0] is Failed) {
            assert(items.take(i).drop_first() =~= items.drop_first().take(i - 1));
            assert(items.take(i - 1).drop_first() =~= items.drop_first().take(i - 2));
            assert(items.drop_first()[i - 2] == items[i - 1]);
            lemma_first_failure_take_step(items.drop_first(), i - 1);
        }
    }
}

/// The view of one tracked slot: the key and the value accumulated for it.
#[verifier::ext_equal]
pub struct SlotView {
    pub key: KeyView,
    pub value: StoreTreeView,
}

impl SlotView {
    /// The facets still unsatisfied for this slot.
    pub open spec fn pending(self, requested: TreeAttributes) -> TreeAttributes {
        requested.subtract(self.value.attrs())
    }

    /// Whether every requested facet has been satisfied.
    pub open spec fn done(self, requested: TreeAttributes) -> bool {
        self.pending(requested).is_empty()
    }
}

/// The view of the pending tracker.
#[verifier::ext_equal]
pub struct PendingTrackerView {
    pub requested: TreeAttributes,
    pub immediate: Seq<FetchItemView>,
    pub slots: Seq<SlotView>,
}

impl PendingTrackerView {
    /// Slot keys are pairwise distinct and none is the sentinel.
    pub open spec fn wf(self) -> bool {
        &&& forall|i: int, j: int|
            0 <= i < j < self.slots.len() ==> self.slots[i].key != self.slots[j].key
        &&& forall|i: int| 0 <= i < self.slots.len() ==> !(#[trigger] self.slots[i]).key.is_null()
    }
}

/// The keys of a sequence of slots.
pub open spec fn slot_keys(slots: Seq<SlotView>) -> Seq<KeyView> {
    slots.map_values(|s: SlotView| s.key)
}

/// The distinct non-sentinel keys of a batch, first occurrence first:
/// exactly the keys the tracker seeds a slot for.
pub open spec fn tracked_keys(keys: Seq<KeyView>) -> Seq<KeyView>
    decreases keys.len(),
{
    if keys.len() == 0 {
        Seq::empty()
    } else {
        let front = tracked_keys(keys.drop_last());
        let k = keys.last();
        if k.is_null() || front.contains(k) {
            front
        } else {
            front.push(k)
        }
    }
}

/// The distinct sentinel keys of a batch, first occurrence first: exactly
/// the keys the tracker answers immediately with the canonical empty
/// value.
pub open spec fn sentinel_keys(keys: Seq<KeyView>) -> Seq<KeyView>
    decreases keys.len(),
{
    if keys.len() == 0 {
        Seq::empty()
    } else {
        let front = sentinel_keys(keys.drop_last());
        let k = keys.last();
        if k.is_null() && !front.contains(k) {
            front.push(k)
        } else {
            front
        }
    }
}

/// The immediate outcomes of a batch's sentinel keys: each answered with
/// the canonical empty value.
pub open spec fn sentinel_items(keys: Seq<KeyView>) -> Seq<FetchItemView>
    decreases keys.len(),
{
    if keys.len() == 0 {
        Seq::empty()
    } else {
        let front = sentinel_items(keys.drop_last());
        let k = keys.last();
        if k.is_null() && !sentinel_keys(keys.drop_last()).contains(k) {
            front.push(FetchItemView::Found(k, canonical_empty_view()))
        } else {
            front
        }
    }
}

/// The immediate outcomes line up with the sentinel keys, one canonical
/// answer each.
pub proof fn lemma_sentinel_items_shape(keys: Seq<KeyView>)
    ensures
        sentinel_items(keys).len() == sentinel_keys(keys).len(),
        forall|j: int|
            0 <= j < sentinel_keys(keys).len() ==> sentinel_items(keys)[j]
                == FetchItemView::Found(sentinel_keys(keys)[j], canonical_empty_view()),
    decreases keys.len(),
{
    if keys.len() > 0 {
        lemma_sentinel_items_shape(keys.drop_last());
    }
}

/// How many slots still have unsatisfied facets.
pub open spec fn count_pending(slots: Seq<SlotView>, requested: TreeAttributes) -> int
    decreases slots.len(),
{
    if slots.len() == 0 {
        0int
    } else {
        count_pending(slots.drop_last(), requested) + (if slots.last().done(requested) {
            0int
        } else {
            1int
        })
    }
}

/// The slot of the key, searched front to back.
pub open spec fn find_slot(slots: Seq<SlotView>, k: KeyView) -> Option<int>
    decreases slots.len(),
{
    if slots.len() == 0 {
        None
    } else if slots[0].key == k {
        Some(0int)
    } else {
        match find_slot(slots.drop_first(), k) {
            Some(i) => Some(i + 1),
            None => None,
        }
    }
}

/// Where the first slot with the key sits at `i`, `find_slot` returns it.
pub proof fn lemma_find_slot_at(slots: Seq<SlotView>, k: KeyView, i: int)
    requires
        0 <= i < slots.len(),
        slots[i].key == k,
        forall|j: int| 0 <= j < i ==> slots[j].key != k,
    ensures
        find_slot(slots, k) == Some(i),
    decreases i,
{
    if i > 0 {
        lemma_find_slot_at(slots.drop_first(), k, i - 1);
    }
}

/// Where no slot has the key, `find_slot` returns nothing.
pub proof fn lemma_find_slot_none(slots: Seq<SlotView>, k: KeyView)
    requires
        forall|j: int| 0 <= j < slots.len() ==> slots[j].key != k,
    ensures
        find_slot(slots, k) is None,
    decreases slots.len(),
{
    if slots.len() > 0 {
        lemma_find_slot_none(slots.drop_first(), k);
    }
}

/// `find_slot` answers within bounds, with the key it was asked for, at
/// the first position holding it.
pub proof fn lemma_find_slot_some(slots: Seq<SlotView>, k: KeyView)
    requires
        find_slot(slots, k) is Some,
    ensures
        0 <= find_slot(slots, k)->0 < slots.len(),
        slots[find_slot(slots, k)->0].key == k,
    decreases slots.len(),
{
    if slots.len() > 0 && slots[0].key != k {
        lemma_find_slot_some(slots.drop_first(), k);
    }
}

/// The per-slot terminal outcomes, in slot order: a satisfied slot reports
/// its value masked to the request; an unsatisfied slot reports not found,
/// unless the batch was cut short by a failure, in which case it reports
/// nothing.
pub open spec fn slot_results(
    slots: Seq<SlotView>,
    requested: TreeAttributes,
    aborted: bool,
) -> Seq<FetchItemView>
    decreases slots.len(),
{
    if slots.len() == 0 {
        Seq::empty()
    } else {
        let front = slot_results(slots.drop_last(), requested, aborted);
        let s = slots.last();
        if s.done(requested) {
            front.push(FetchItemView::Found(s.key, s.value.mask(requested)))
        } else if aborted {
            front
        } else {
            front.push(FetchItemView::NotFound(s.key))
        }
    }
}

/// Everything one batch delivers: the sentinel answers, the per-slot
/// outcomes, and the failure that cut the batch short, if one did.
pub open spec fn results_view(t: PendingTrackerView, failure: Option<StoreError>) -> Seq<
    FetchItemView,
> {
    t.immediate + slot_results(t.slots, t.requested, failure is Some) + (match failure {
        Some(e) => seq![FetchItemView::Failed(e)],
        None => Seq::empty(),
    })
}

/// Whether an item's key is `k`. A failure item has no key.
fn item_key_is(item: &FetchItem, k: &Key) -> (r: bool)
    ensures
        r == (match item@ {
            FetchItemView::Found(ik, _v) => ik == k@,
            FetchItemView::NotFound(ik) => ik == k@,
            FetchItemView::Failed(_e) => false,
        }),
{
    match item {
        FetchItem::Found(ik, _v) => ik.same_as(k),
        FetchItem::NotFound(ik) => ik.same_as(k),
        FetchItem::Failed(_e) => false,
    }
}

/// One tracked slot.
#[derive(Debug)]
struct Slot {
    key: Key,
    value: StoreTree,
}

/// The per-batch state of one fetch: which facets remain unsatisfied for
/// each key, and the partial value accumulated so far. Built once per
/// batch, it owns the emission of terminal outcomes: each key gets exactly
/// one, found or not found, never both.
#[derive(Debug)]
pub struct PendingTracker {
    requested: TreeAttributes,
    immediate: Vec<FetchItem>,
    slots: Vec<Slot>,
}

impl View for PendingTracker {
    type V = PendingTrackerView;

    closed spec fn view(&self) -> PendingTrackerView {
        PendingTrackerView {
            requested: self.requested,
            immediate: items_view(self.immediate@),
            slots: self.slots@.map_values(|s: Slot| SlotView { key: s.key@, value: s.value@ }),
        }
    }
}

impl PendingTracker {
    /// Seeds a tracker for a batch: every distinct non-sentinel key gets a
    /// slot pending the full requested mask; every sentinel key bypasses
    /// the tracker and is answered at once with the canonical empty value;
    /// duplicates collapse onto their first occurrence.
    pub fn new(keys: &Vec<Key>, requested: TreeAttributes) -> (r: PendingTracker)
        ensures
            r@.requested == requested,
            slot_keys(r@.slots) == tracked_keys(keys_view(keys@)),
            forall|i: int|
                0 <= i < r@.slots.len() ==> (#[trigger] r@.slots[i]).value == (StoreTreeView {
                    content: None,
                    parents: None,
                }),
            r@.immediate == sentinel_items(keys_view(keys@)),
            r@.wf(),
    {
        let mut tracker = PendingTracker { requested, immediate: Vec::new(), slots: Vec::new() };
        proof {
            assert(slot_keys(tracker@.slots) =~= tracked_keys(keys_view(keys@).take(0)));
            assert(tracker@.immediate =~= sentinel_items(keys_view(keys@).take(0)));
        }
        let mut i: usize = 0;
        while i < keys.len()
            invariant
                i <= keys.len(),
                tracker@.requested == requested,
                slot_keys(tracker@.slots) == tracked_keys(keys_view(keys@).take(i as int)),
                forall|j: int|
                    0 <= j < tracker@.slots.len() ==> (#[trigger] tracker@.slots[j]).value
                        == (StoreTreeView { content: None, parents: None }),
                tracker@.immediate == sentinel_items(keys_view(keys@).take(i as int)),
                tracker@.wf(),
            decreases keys.len() - i,
        {
            let ghost prefix = keys_view(keys@).take(i as int);
            let k = &keys[i];
            if k.hgid.is_null() {
                let mut seen = false;
                let mut j: usize = 0;
                while j < tracker.immediate.len() && !seen
                    invariant
                        j <= tracker.immediate.len(),
                        tracker@.immediate == sentinel_items(prefix),
                        seen ==> sentinel_keys(prefix).contains(k@),
                        !seen ==> forall|j2: int| 0 <= j2 < j ==> sentinel_keys(prefix)[j2] != k@,
                    decreases tracker.immediate.len() - j,
                {
                    let hit = item_key_is(&tracker.immediate[j], k);
                    proof {
                        lemma_sentinel_items_shape(prefix);
                        assert(tracker@.immediate[j as int] == FetchItemView::Found(
                            sentinel_keys(prefix)[j as int],
                            canonical_empty_view(),
                        ));
                    }
                    if hit {
                        seen = true;
                        proof {
                            assert(sentinel_keys(prefix)[j as int] == k@);
                            assert(sentinel_keys(prefix).contains(k@));
                        }
                    } else {
                        proof {
                            assert(sentinel_keys(prefix)[j as int] != k@);
                        }
                    }
                    j = j + 1;
                }
                if !seen {
                    proof {
                        lemma_sentinel_items_shape(prefix);
                        assert forall|j2: int|
                            0 <= j2 < sentinel_keys(prefix).len() implies sentinel_keys(
                            prefix,
                        )[j2] != k@ by {}
                        assert(!sentinel_keys(prefix).contains(k@));
                    }
                    let ghost pre = tracker.immediate@;
                    tracker.immediate.push(
                        FetchItem::Found(k.clone(), StoreTree::canonical_empty()),
                    );
                    proof {
                        assert(tracker.immediate@ =~= pre.push(tracker.immediate@.last()));
                        assert(tracker.immediate@.last()@ == FetchItemView::Found(
                            k@,
                            canonical_empty_view(),
                        ));
                        assert(items_view(tracker.immediate@) =~= items_view(pre).push(
                            FetchItemView::Found(k@, canonical_empty_view()),
                        ));
                    }
                }
                proof {
                    let taken = keys_view(keys@).take(i + 1);
                    assert(taken.drop_last() =~= prefix);
                    assert(taken.last() == keys@[i as int]@);
                    assert(k@.is_null());
                    if seen {
                        assert(sentinel_keys(taken) =~= sentinel_keys(prefix));
                        assert(sentinel_items(taken) =~= sentinel_items(prefix));
                    } else {
                        assert(sentinel_keys(taken) =~= sentinel_keys(prefix).push(k@));
                        assert(sentinel_items(taken) =~= sentinel_items(prefix).push(
                            FetchItemView::Found(k@, canonical_empty_view()),
                        ));
                    }
                    assert(tracker@.immediate =~= sentinel_items(taken));
                    assert(slot_keys(tracker@.slots) =~= tracked_keys(taken));
                }
            } else {
                let mut seen = false;
                let mut j: usize = 0;
                while j < tracker.slots.len() && !seen
                    invariant
                        j <= tracker.slots.len(),
                        slot_keys(tracker@.slots) == tracked_keys(prefix),
                        seen ==> tracked_keys(prefix).contains(k@),
                        !seen ==> forall|j2: int|
                            0 <= j2 < j ==> (#[trigger] tracker@.slots[j2]).key != k@,
                    decreases tracker.slots.len() - j,
                {
                    if tracker.slots[j].key.same_as(k) {
                        seen = true;
                        proof {
                            assert(slot_keys(tracker@.slots)[j as int] == k@);
                            assert(tracked_keys(prefix).contains(k@));
                        }
                    }
                    j = j + 1;
                }
                if !seen {
                    proof {
                        assert forall|j2: int|
                            0 <= j2 < tracked_keys(prefix).len() implies tracked_keys(
                            prefix,
                        )[j2] != k@ by {
                            assert(tracked_keys(prefix)[j2] == slot_keys(tracker@.slots)[j2]);
                            assert(slot_keys(tracker@.slots)[j2] == tracker@.slots[j2].key);
                        }
                        assert(!tracked_keys(prefix).contains(k@));
                    }
                    let ghost preslots = tracker@.slots;
                    tracker.slots.push(Slot { key: k.clone(), value: StoreTree::empty_value() });
                    proof {
                        assert(tracker@.slots =~= preslots.push(
                            SlotView {
                                key: k@,
                                value: StoreTreeView { content: None, parents: None },
                            },
                        ));
                        assert(slot_keys(tracker@.slots) =~= slot_keys(preslots).push(k@));
                    }
                }
                proof {
                    let taken = keys_view(keys@).take(i + 1);
                    assert(taken.drop_last() =~= prefix);
                    assert(taken.last() == keys@[i as int]@);
                    assert(!k@.is_null());
                    if seen {
                        assert(tracked_keys(taken) =~= tracked_keys(prefix));
                    } else {
                        assert(tracked_keys(taken) =~= tracked_keys(prefix).push(k@));
                    }
                    assert(slot_keys(tracker@.slots) =~= tracked_keys(taken));
                    assert(tracker@.immediate =~= sentinel_items(taken));
                }
            }
            i = i + 1;
        }
        proof {
            assert(keys_view(keys@).take(keys@.len() as int) =~= keys_view(keys@));
        }
        tracker
    }

    /// The facets the whole batch asked for.
    pub fn requested(&self) -> (r: TreeAttributes)
        ensures
            r == self@.requested,
    {
        self.requested
    }

    /// How many slots the tracker holds.
    pub fn len(&self) -> (r: usize)
        ensures
            r == self@.slots.len(),
    {
        self.slots.len()
    }

    /// The key of one slot.
    pub fn key_at(&self, i: usize) -> (r: &Key)
        requires
            i < self@.slots.len(),
        ensures
            r@ == self@.slots[i as int].key,
    {
        &self.slots[i].key
    }

    /// The facets still unsatisfied for one slot.
    pub fn pending_at(&self, i: usize) -> (r: TreeAttributes)
        requires
            i < self@.slots.len(),
        ensures
            r == self@.slots[i as int].pending(self@.requested),
    {
        self.requested.subtract(self.slots[i].value.attrs())
    }

    /// How many keys still have unsatisfied facets.
    pub fn pending_len(&self) -> (r: usize)
        ensures
            r == count_pending(self@.slots, self@.requested),
    {
        proof {
            assert(count_pending(self@.slots.take(0), self@.requested) == 0);
        }
        let mut count: usize = 0;
        let mut i: usize = 0;
        while i < self.slots.len()
            invariant
                i <= self.slots.len(),
                count <= i,
                count == count_pending(self@.slots.take(i as int), self@.requested),
            decreases self.slots.len() - i,
        {
            let ghost prefix = self@.slots.take(i as int);
            if !self.pending_at(i).is_empty() {
                count = count + 1;
            }
            i = i + 1;
            proof {
                let taken = self@.slots.take(i as int);
                assert(taken.drop_last() =~= prefix);
                assert(taken.last() == self@.slots[i - 1]);
            }
        }
        proof {
            assert(self@.slots.take(self@.slots.len() as int) =~= self@.slots);
        }
        count
    }

    /// Merges a found partial value into one slot. The facets already
    /// accumulated win; the remaining requested facets of the new value
    /// are cleared from the slot's pending mask.
    pub fn record_at(&mut self, i: usize, value: StoreTree)
        requires
            i < old(self)@.slots.len(),
        ensures
            final(self)@ == (PendingTrackerView {
                slots: old(self)@.slots.update(
                    i as int,
                    SlotView {
                        key: old(self)@.slots[i as int].key,
                        value: old(self)@.slots[i as int].value.merge(value@),
                    },
                ),
                ..old(self)@
            }),
    {
        let merged = self.slots[i].value.clone().merge(value);
        let key2 = self.slots[i].key.clone();
        self.slots.set(i, Slot { key: key2, value: merged });
        proof {
            assert(self@.slots =~= old(self)@.slots.update(
                i as int,
                SlotView {
                    key: old(self)@.slots[i as int].key,
                    value: old(self)@.slots[i as int].value.merge(value@),
                },
            ));
            assert(self@ =~= (PendingTrackerView {
                slots: old(self)@.slots.update(
                    i as int,
                    SlotView {
                        key: old(self)@.slots[i as int].key,
                        value: old(self)@.slots[i as int].value.merge(value@),
                    },
                ),
                ..old(self)@
            }));
        }
    }

    /// Records that a tier found a partial value for a key: the value is
    /// merged into the key's slot. A key the tracker does not track is
    /// ignored.
    pub fn found(&mut self, key: &Key, value: StoreTree)
        ensures
            final(self)@ == (match find_slot(old(self)@.slots, key@) {
                Some(i) => PendingTrackerView {
                    slots: old(self)@.slots.update(
                        i,
                        SlotView {
                            key: old(self)@.slots[i].key,
                            value: old(self)@.slots[i].value.merge(value@),
                        },
                    ),
                    ..old(self)@
                },
                None => old(self)@,
            }),
    {
        let mut i: usize = 0;
        while i < self.slots.len()
            invariant
                i <= self.slots.len(),
                self@ == old(self)@,
                forall|j: int|
                    0 <= j < i ==> (#[trigger] self@.slots[j]).key != key@,
            decreases self.slots.len() - i,
        {
            if self.slots[i].key.same_as(key) {
                proof {
                    lemma_find_slot_at(self@.slots, key@, i as int);
                }
                self.record_at(i, value);
                return ;
            }
            i = i + 1;
        }
        proof {
            lemma_find_slot_none(self@.slots, key@);
        }
    }

    /// The keys whose pending facets meet `required`, each with its
    /// pending mask; with `include_already_found`, every key whose
    /// requested facets meet `required`, satisfied or not.
    pub fn pending(&self, required: TreeAttributes, include_already_found: bool) -> (r: Vec<
        (Key, TreeAttributes),
    >)
        ensures
            r@.map_values(|p: (Key, TreeAttributes)| (p.0@, p.1)) == pending_list(
                self@.slots,
                self@.requested,
                required,
                include_already_found,
            ),
    {
        let mut out: Vec<(Key, TreeAttributes)> = Vec::new();
        proof {
            assert(out@.map_values(|p: (Key, TreeAttributes)| (p.0@, p.1)) =~= pending_list(
                self@.slots.take(0),
                self@.requested,
                required,
                include_already_found,
            ));
        }
        let mut i: usize = 0;
        while i < self.slots.len()
            invariant
                i <= self.slots.len(),
                out@.map_values(|p: (Key, TreeAttributes)| (p.0@, p.1)) == pending_list(
                    self@.slots.take(i as int),
                    self@.requested,
                    required,
                    include_already_found,
                ),
            decreases self.slots.len() - i,
        {
            let ghost prefix = self@.slots.take(i as int);
            let relevant = if include_already_found {
                !self.requested.intersect(required).is_empty()
            } else {
                !self.pending_at(i).intersect(required).is_empty()
            };
            if relevant {
                let ghost pre = out@;
                out.push((self.slots[i].key.clone(), self.pending_at(i)));
                proof {
                    assert(out@ =~= pre.push(out@.last()));
                    assert(out@.map_values(|p: (Key, TreeAttributes)| (p.0@, p.1)) =~= pre.map_values(
                        |p: (Key, TreeAttributes)| (p.0@, p.1),
                    ).push(
                        (
                            self@.slots[i as int].key,
                            self@.slots[i as int].pending(self@.requested),
                        ),
                    ));
                }
            }
            i = i + 1;
            proof {
                let taken = self@.slots.take(i as int);
                assert(taken.drop_last() =~= prefix);
                assert(taken.last() == self@.slots[i - 1]);
                assert(out@.map_values(|p: (Key, TreeAttributes)| (p.0@, p.1)) =~= pending_list(
                    taken,
                    self@.requested,
                    required,
                    include_already_found,
                ));
            }
        }
        proof {
            assert(self@.slots.take(self@.slots.len() as int) =~= self@.slots);
        }
        out
    }

    /// Closes the batch and lays out every outcome for delivery: the
    /// sentinel answers first, then one outcome per slot in request order
    /// (found where every requested facet was satisfied, not found
    /// otherwise), and the failure last where one cut the batch short, in
    /// which case unsatisfied slots report nothing.
    pub fn into_results(self, failure: Option<StoreError>) -> (r: FetchResults)
        ensures
            r@ == results_view(self@, failure),
    {
        let ghost t = self@;
        let requested = self.requested;
        let mut out: Vec<FetchItem> = self.immediate;
        let aborted = match &failure {
            Some(_e) => true,
            None => false,
        };
        proof {
            assert(items_view(out@) =~= t.immediate + slot_results(
                t.slots.take(0),
                t.requested,
                aborted,
            ));
        }
        let mut slots = self.slots;
        let mut i: usize = 0;
        while i < slots.len()
            invariant
                i <= slots.len(),
                requested == t.requested,
                slots@.map_values(|s: Slot| SlotView { key: s.key@, value: s.value@ }) == t.slots,
                items_view(out@) == t.immediate + slot_results(
                    t.slots.take(i as int),
                    t.requested,
                    aborted,
                ),
            decreases slots.len() - i,
        {
            let ghost prefix = t.slots.take(i as int);
            let pending = requested.subtract(slots[i].value.attrs());
            let ghost pre = out@;
            if pending.is_empty() {
                let key2 = slots[i].key.clone();
                let masked = slots[i].value.clone().mask(requested);
                out.push(FetchItem::Found(key2, masked));
                proof {
                    assert(out@ =~= pre.push(out@.last()));
                    assert(out@.last()@ == FetchItemView::Found(
                        t.slots[i as int].key,
                        t.slots[i as int].value.mask(t.requested),
                    ));
                    assert(items_view(out@) =~= items_view(pre).push(out@.last()@));
                }
            } else if !aborted {
                let key2 = slots[i].key.clone();
                out.push(FetchItem::NotFound(key2));
                proof {
                    assert(out@ =~= pre.push(out@.last()));
                    assert(out@.last()@ == FetchItemView::NotFound(t.slots[i as int].key));
                    assert(items_view(out@) =~= items_view(pre).push(out@.last()@));
                }
            }
            i = i + 1;
            proof {
                let taken = t.slots.take(i as int);
                assert(taken.drop_last() =~= prefix);
                assert(taken.last() == t.slots[i - 1]);
                assert(items_view(out@) =~= t.immediate + slot_results(
                    taken,
                    t.requested,
                    aborted,
                ));
            }
        }
        proof {
            assert(t.slots.take(t.slots.len() as int) =~= t.slots);
        }
        match failure {
            Some(e) => {
                let ghost pre = out@;
                out.push(FetchItem::Failed(e));
                proof {
                    assert(out@ =~= pre.push(out@.last()));
                    assert(items_view(out@) =~= items_view(pre).push(FetchItemView::Failed(e)));
                    assert(items_view(out@) =~= results_view(t, failure));
                }
            }
            None => {
                proof {
                    assert(items_view(out@) =~= results_view(t, failure));
                }
            }
        }
        FetchResults::from_items(out)
    }
}

/// The keys whose pending facets meet `required`, each paired with its
/// pending mask, in slot order.
pub open spec fn pending_list(
    slots: Seq<SlotView>,
    requested: TreeAttributes,
    required: TreeAttributes,
    include_already_found: bool,
) -> Seq<(KeyView, TreeAttributes)>
    decreases slots.len(),
{
    if slots.len() == 0 {
        Seq::empty()
    } else {
        let front = pending_list(slots.drop_last(), requested, required, include_already_found);
        let s = slots.last();
        let relevant = if include_already_found {
            !requested.intersect(required).is_empty()
        } else {
            !s.pending(requested).intersect(required).is_empty()
        };
        if relevant {
            front.push((s.key, s.pending(requested)))
        } else {
            front
        }
    }
}

} // verus!
