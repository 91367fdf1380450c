//! The per-key partial value: attribute-tagged pieces of a tree object
//! accumulated while the tiers are consulted, with masking and merging.

use vstd::prelude::*;

use crate::attrs::TreeAttributes;
use crate::types::{HgId, Key, KeyView, Parents, ParentsView};

verus! {

/// Small metadata stored beside an entry's bytes in a log tier.
#[derive(Clone, Copy, Debug, PartialEq, Eq, Structural)]
pub struct Metadata {
    pub size: Option<u64>,
    pub flags: Option<u64>,
}

impl Metadata {
    /// Metadata with nothing recorded.
    pub fn none_metadata() -> (r: Metadata)
        ensures
            r.size is None,
            r.flags is None,
    {
        Metadata { size: None, flags: None }
    }
}

/// The view of a log entry.
#[verifier::ext_equal]
pub struct EntryView {
    pub key: KeyView,
    pub data: Seq<u8>,
    pub meta: Metadata,
}

/// One record of a log tier: a key, the raw content bytes, and metadata.
#[derive(Debug, PartialEq, Eq)]
pub struct Entry {
    pub key: Key,
    pub data: Vec<u8>,
    pub meta: Metadata,
}

impl View for Entry {
    type V = EntryView;

    open spec fn view(&self) -> EntryView {
        EntryView { key: self.key@, data: self.data@, meta: self.meta }
    }
}

impl Entry {
    /// Builds a log entry.
    pub fn new(key: Key, data: Vec<u8>, meta: Metadata) -> (r: Entry)
        ensures
            r@.key == key@,
            r@.data == data@,
            r@.meta == meta,
    {
        Entry { key, data, meta }
    }
}

impl Clone for Entry {
    fn clone(&self) -> (r: Entry)
        ensures
            r@ == self@,
    {
        let r = Entry {
            key: self.key.clone(),
            data: crate::types::clone_bytes(&self.data),
            meta: self.meta,
        };
        proof {
            assert(r@ =~= self@);
        }
        r
    }
}

/// Auxiliary metadata of a file child of a tree: its size and content hash.
#[derive(Debug, PartialEq, Eq)]
pub struct FileAuxData {
    pub total_size: u64,
    pub content_hash: HgId,
}

/// The view of `FileAuxData`.
#[verifier::ext_equal]
pub struct FileAuxDataView {
    pub total_size: u64,
    pub content_hash: Seq<u8>,
}

impl View for FileAuxData {
    type V = FileAuxDataView;

    open spec fn view(&self) -> FileAuxDataView {
        FileAuxDataView { total_size: self.total_size, content_hash: self.content_hash@ }
    }
}

/// Auxiliary metadata of a directory child of a tree.
#[derive(Debug, PartialEq, Eq)]
pub struct TreeAuxData {
    pub augmented_size: u64,
    pub augmented_hash: HgId,
}

/// The view of `TreeAuxData`.
#[verifier::ext_equal]
pub struct TreeAuxDataView {
    pub augmented_size: u64,
    pub augmented_hash: Seq<u8>,
}

impl View for TreeAuxData {
    type V = TreeAuxDataView;

    open spec fn view(&self) -> TreeAuxDataView {
        TreeAuxDataView { augmented_size: self.augmented_size, augmented_hash: self.augmented_hash@ }
    }
}

impl Clone for FileAuxData {
    fn clone(&self) -> (r: FileAuxData)
        ensures
            r@ == self@,
    {
        let r = FileAuxData { total_size: self.total_size, content_hash: self.content_hash.clone() };
        proof {
            assert(r@ =~= self@);
        }
        r
    }
}

impl Clone for TreeAuxData {
    fn clone(&self) -> (r: TreeAuxData)
        ensures
            r@ == self@,
    {
        let r = TreeAuxData {
            augmented_size: self.augmented_size,
            augmented_hash: self.augmented_hash.clone(),
        };
        proof {
            assert(r@ =~= self@);
        }
        r
    }
}

/// Auxiliary metadata of one child of a tree, file or directory.
#[derive(Debug, PartialEq, Eq)]
pub enum AuxData {
    File(FileAuxData),
    Tree(TreeAuxData),
}

/// The view of `AuxData`.
#[verifier::ext_equal]
pub enum AuxDataView {
    File(FileAuxDataView),
    Tree(TreeAuxDataView),
}

impl View for AuxData {
    type V = AuxDataView;

    open spec fn view(&self) -> AuxDataView {
        match self {
            AuxData::File(f) => AuxDataView::File(f@),
            AuxData::Tree(t) => AuxDataView::Tree(t@),
        }
    }
}

impl Clone for AuxData {
    fn clone(&self) -> (r: AuxData)
        ensures
            r@ == self@,
    {
        match self {
            AuxData::File(f) => AuxData::File(f.clone()),
            AuxData::Tree(t) => AuxData::Tree(t.clone()),
        }
    }
}

/// The view of a remote response entry.
#[verifier::ext_equal]
pub struct RemoteTreeEntryView {
    pub key: KeyView,
    pub data: Seq<u8>,
    pub parents: Option<ParentsView>,
    pub children: Seq<(Seq<u8>, AuxDataView)>,
}

/// One entry of a remote client's response: the key, the content bytes,
/// optionally the parent pair, and optionally auxiliary metadata for each
/// child keyed by the child's content hash.
#[derive(Debug, PartialEq, Eq)]
pub struct RemoteTreeEntry {
    pub key: Key,
    pub data: Vec<u8>,
    pub parents: Option<Parents>,
    pub children: Vec<(HgId, AuxData)>,
}

impl View for RemoteTreeEntry {
    type V = RemoteTreeEntryView;

    open spec fn view(&self) -> RemoteTreeEntryView {
        RemoteTreeEntryView {
            key: self.key@,
            data: self.data@,
            parents: match self.parents {
                Some(p) => Some(p@),
                None => None,
            },
            children: self.children@.map_values(|c: (HgId, AuxData)| (c.0@, c.1@)),
        }
    }
}

/// The view of a child list: each child as its hash and metadata views.
pub open spec fn children_view(v: Seq<(HgId, AuxData)>) -> Seq<(Seq<u8>, AuxDataView)> {
    v.map_values(|c: (HgId, AuxData)| (c.0@, c.1@))
}

/// Copies a child list.
fn clone_children(v: &Vec<(HgId, AuxData)>) -> (r: Vec<(HgId, AuxData)>)
    ensures
        children_view(r@) == children_view(v@),
{
    let mut r: Vec<(HgId, AuxData)> = Vec::new();
    let mut i: usize = 0;
    while i < v.len()
        invariant
            i <= v.len(),
            r@.len() == i,
            forall|j: int|
                0 <= j < i ==> #[trigger] r@[j].0@ == v@[j].0@ && r@[j].1@ == v@[j].1@,
        decreases v.len() - i,
    {
        let c = &v[i];
        r.push((c.0.clone(), c.1.clone()));
        i = i + 1;
    }
    proof {
        assert(children_view(r@) =~= children_view(v@));
    }
    r
}

impl Clone for RemoteTreeEntry {
    fn clone(&self) -> (r: RemoteTreeEntry)
        ensures
            r@ == self@,
    {
        let parents = match &self.parents {
            Some(p) => Some(p.clone()),
            None => None,
        };
        let r = RemoteTreeEntry {
            key: self.key.clone(),
            data: crate::types::clone_bytes(&self.data),
            parents,
            children: clone_children(&self.children),
        };
        proof {
            assert(r@ =~= self@);
        }
        r
    }
}

/// The view of the content piece of a partial value.
#[verifier::ext_equal]
pub enum LazyTreeView {
    /// Content read from a local or cache log tier.
    IndexedLog(EntryView),
    /// Content returned by the remote client.
    SaplingRemoteApi(RemoteTreeEntryView),
    /// Content returned by the legacy fallback store, or the canonical
    /// empty object.
    ContentStore(Seq<u8>),
}

impl LazyTreeView {
    /// The raw content bytes, whatever tier supplied them.
    pub open spec fn content_bytes(self) -> Seq<u8> {
        match self {
            LazyTreeView::IndexedLog(e) => e.data,
            LazyTreeView::SaplingRemoteApi(e) => e.data,
            LazyTreeView::ContentStore(d) => d,
        }
    }

    /// The parent pair carried beside the content, where the supplying tier
    /// returned one. Only remote entries carry parents with their content.
    pub open spec fn parents_view(self) -> Option<ParentsView> {
        match self {
            LazyTreeView::SaplingRemoteApi(e) => e.parents,
            _ => None,
        }
    }
}

/// The content piece of a partial value, tagged with the tier it came from.
/// Auxiliary child metadata is only carried by remote entries.
#[derive(Debug, PartialEq, Eq)]
pub enum LazyTree {
    /// Content read from a local or cache log tier.
    IndexedLog(Entry),
    /// Content returned by the remote client.
    SaplingRemoteApi(RemoteTreeEntry),
    /// Content returned by the legacy fallback store, or the canonical
    /// empty object.
    ContentStore(Vec<u8>),
}

impl View for LazyTree {
    type V = LazyTreeView;

    open spec fn view(&self) -> LazyTreeView {
        match self {
            LazyTree::IndexedLog(e) => LazyTreeView::IndexedLog(e@),
            LazyTree::SaplingRemoteApi(e) => LazyTreeView::SaplingRemoteApi(e@),
            LazyTree::ContentStore(d) => LazyTreeView::ContentStore(d@),
        }
    }
}

impl LazyTree {
    /// The raw content bytes, whatever tier supplied them.
    pub fn hg_content(&self) -> (r: &Vec<u8>)
        ensures
            r@ == self@.content_bytes(),
    {
        match self {
            LazyTree::IndexedLog(e) => &e.data,
            LazyTree::SaplingRemoteApi(e) => &e.data,
            LazyTree::ContentStore(d) => d,
        }
    }

    /// The parent pair carried beside the content, where the tier supplied
    /// one. Only remote entries carry parents with their content.
    pub fn parents(&self) -> (r: Option<Parents>)
        ensures
            (match r {
                Some(p) => Some(p@),
                None => None::<ParentsView>,
            }) == self@.parents_view(),
    {
        match self {
            LazyTree::SaplingRemoteApi(e) => match &e.parents {
                Some(p) => Some(p.clone()),
                None => None,
            },
            _ => None,
        }
    }
}

impl Clone for LazyTree {
    fn clone(&self) -> (r: LazyTree)
        ensures
            r@ == self@,
    {
        match self {
            LazyTree::IndexedLog(e) => LazyTree::IndexedLog(e.clone()),
            LazyTree::SaplingRemoteApi(e) => LazyTree::SaplingRemoteApi(e.clone()),
            LazyTree::ContentStore(d) => LazyTree::ContentStore(crate::types::clone_bytes(d)),
        }
    }
}

impl Clone for StoreTree {
    fn clone(&self) -> (r: StoreTree)
        ensures
            r@ == self@,
    {
        let content = match &self.content {
            Some(c) => Some(c.clone()),
            None => None,
        };
        let parents = match &self.parents {
            Some(p) => Some(p.clone()),
            None => None,
        };
        let r = StoreTree { content, parents };
        proof {
            assert(r@ =~= self@);
        }
        r
    }
}

/// The view of a partial value.
#[verifier::ext_equal]
pub struct StoreTreeView {
    pub content: Option<LazyTreeView>,
    pub parents: Option<ParentsView>,
}

impl StoreTreeView {
    /// Exactly the facets that are present.
    pub open spec fn attrs(self) -> TreeAttributes {
        TreeAttributes { content: self.content is Some, parents: self.parents is Some }
    }

    /// The copy retaining only the facets in `mask`.
    pub open spec fn mask(self, mask: TreeAttributes) -> StoreTreeView {
        StoreTreeView {
            content: if mask.content {
                self.content
            } else {
                None
            },
            parents: if mask.parents {
                self.parents
            } else {
                None
            },
        }
    }

    /// Left-biased field-wise union: a facet present in `self` is kept; a
    /// facet absent in `self` is taken from `other`.
    pub open spec fn merge(self, other: StoreTreeView) -> StoreTreeView {
        StoreTreeView {
            content: if self.content is Some {
                self.content
            } else {
                other.content
            },
            parents: if self.parents is Some {
                self.parents
            } else {
                other.parents
            },
        }
    }
}

/// A per-key accumulator of attribute-tagged partial answers. Each facet is
/// either absent or present; `attrs` reports exactly the present ones.
#[derive(Debug, PartialEq, Eq)]
pub struct StoreTree {
    pub content: Option<LazyTree>,
    pub parents: Option<Parents>,
}

impl View for StoreTree {
    type V = StoreTreeView;

    open spec fn view(&self) -> StoreTreeView {
        StoreTreeView {
            content: match &self.content {
                Some(c) => Some(c@),
                None => None,
            },
            parents: match self.parents {
                Some(p) => Some(p@),
                None => None,
            },
        }
    }
}

impl StoreTree {
    /// The value with no facet present.
    pub fn empty_value() -> (r: StoreTree)
        ensures
            r@.content is None,
            r@.parents is None,
    {
        StoreTree { content: None, parents: None }
    }

    /// The canonical value of the empty object, answered for the sentinel
    /// hash without consulting any tier: empty content and no parents.
    pub fn canonical_empty() -> (r: StoreTree)
        ensures
            r@.content == Some(LazyTreeView::ContentStore(Seq::<u8>::empty())),
            r@.parents matches Some(p) && p.p1 == crate::types::null_hash() && p.p2
                == crate::types::null_hash(),
    {
        let r = StoreTree {
            content: Some(LazyTree::ContentStore(Vec::new())),
            parents: Some(Parents::none_parents()),
        };
        r
    }

    /// Exactly the facets that are present in this value.
    pub fn attrs(&self) -> (r: TreeAttributes)
        ensures
            r == self@.attrs(),
    {
        TreeAttributes { content: self.content.is_some(), parents: self.parents.is_some() }
    }

    /// The copy of this value retaining only the facets in `mask`.
    pub fn mask(self, mask: TreeAttributes) -> (r: StoreTree)
        ensures
            r@ == self@.mask(mask),
    {
        let r = StoreTree {
            content: if mask.content {
                self.content
            } else {
                None
            },
            parents: if mask.parents {
                self.parents
            } else {
                None
            },
        };
        proof {
            assert(r@ =~= self@.mask(mask));
        }
        r
    }

    /// Left-biased field-wise union with `other`: a facet already present is
    /// kept, a facet absent here is taken from `other`. Never loses a
    /// previously set facet.
    pub fn merge(self, other: StoreTree) -> (r: StoreTree)
        ensures
            r@ == self@.merge(other@),
    {
        let r = StoreTree {
            content: if self.content.is_some() {
                self.content
            } else {
                other.content
            },
            parents: if self.parents.is_some() {
                self.parents
            } else {
                other.parents
            },
        };
        proof {
            assert(r@ =~= self@.merge(other@));
        }
        r
    }

    /// Builds a partial value out of a content piece: the content facet is
    /// set, and the parents facet is taken from the piece where the tier
    /// supplied one beside the content.
    pub fn from_content(v: LazyTree) -> (r: StoreTree)
        ensures
            r@.content == Some(v@),
            r@.parents == v@.parents_view(),
    {
        let parents = v.parents();
        StoreTree { content: Some(v), parents }
    }
}

impl StoreTree {
    /// The auxiliary metadata of the tree's children, keyed by each child's
    /// content hash. Only a remote entry carries any; a value without
    /// content cannot answer.
    pub fn aux_data(&self) -> (r: Result<Vec<(HgId, AuxData)>, crate::error::StoreError>)
        ensures
            self@.content is None ==> r == Err::<Vec<(HgId, AuxData)>, crate::error::StoreError>(
                crate::error::StoreError::NoContent,
            ),
            self@.content matches Some(c) ==> (r matches Ok(v) && children_view(v@) == (match c {
                LazyTreeView::SaplingRemoteApi(e) => e.children,
                _ => Seq::<(Seq<u8>, AuxDataView)>::empty(),
            })),
    {
        match &self.content {
            Some(LazyTree::SaplingRemoteApi(e)) => {
                let r = clone_children(&e.children);
                Ok(r)
            },
            Some(_c) => {
                let r: Vec<(HgId, AuxData)> = Vec::new();
                proof {
                    assert(children_view(r@) =~= Seq::<(Seq<u8>, AuxDataView)>::empty());
                }
                Ok(r)
            },
            None => Err(crate::error::StoreError::NoContent),
        }
    }
}

/// The facets populated by a merge are exactly the union of the facets of
/// the two sides, so merging is idempotent and, for which facets end up
/// populated, order-independent.
pub proof fn lemma_merge_attrs(a: StoreTreeView, b: StoreTreeView)
    ensures
        a.merge(b).attrs() == a.attrs().union(b.attrs()),
        a.merge(a) == a,
{
    assert(a.merge(b).attrs() =~= a.attrs().union(b.attrs()));
    assert(a.merge(a) =~= a);
}

/// Whatever the order in which three partial values are merged, the facets
/// populated by the result are the union of the facets of all three.
pub proof fn lemma_merge_order_independent(a: StoreTreeView, b: StoreTreeView, c: StoreTreeView)
    ensures
        a.merge(b).merge(c).attrs() == a.attrs().union(b.attrs()).union(c.attrs()),
        a.merge(b.merge(c)).attrs() == a.attrs().union(b.attrs()).union(c.attrs()),
        b.merge(a).merge(c).attrs() == a.attrs().union(b.attrs()).union(c.attrs()),
        c.merge(b).merge(a).attrs() == a.attrs().union(b.attrs()).union(c.attrs()),
{
    assert(a.merge(b).merge(c).attrs() =~= a.attrs().union(b.attrs()).union(c.attrs()));
    assert(a.merge(b.merge(c)).attrs() =~= a.attrs().union(b.attrs()).union(c.attrs()));
    assert(b.merge(a).merge(c).attrs() =~= a.attrs().union(b.attrs()).union(c.attrs()));
    assert(c.merge(b).merge(a).attrs() =~= a.attrs().union(b.attrs()).union(c.attrs()));
}

/// Merging never loses a facet: each facet of the left side survives as it
/// was, and a facet absent on the left is taken from the right.
pub proof fn lemma_merge_keeps_fields(a: StoreTreeView, b: StoreTreeView)
    ensures
        a.content is Some ==> a.merge(b).content == a.content,
        a.parents is Some ==> a.merge(b).parents == a.parents,
        a.content is None ==> a.merge(b).content == b.content,
        a.parents is None ==> a.merge(b).parents == b.parents,
{
}

} // verus!
