//! Identity types: content hashes, keys, and parent linkage.

use vstd::prelude::*;

verus! {

/// Number of bytes in a content hash.
pub const HASH_LEN: usize = 20;

/// Copies a byte vector.
pub fn clone_bytes(v: &Vec<u8>) -> (r: Vec<u8>)
    ensures
        r@ == v@,
{
    let mut r: Vec<u8> = Vec::new();
    let mut i: usize = 0;
    while i < v.len()
        invariant
            i <= v.len(),
            r@ == v@.subrange(0, i as int),
        decreases v.len() - i,
    {
        r.push(v[i]);
        i = i + 1;
        proof {
            assert(r@ =~= v@.subrange(0, i as int));
        }
    }
    proof {
        assert(r@ =~= v@);
    }
    r
}

/// Compares two byte vectors element by element.
pub fn bytes_eq(a: &Vec<u8>, b: &Vec<u8>) -> (r: bool)
    ensures
        r == (a@ == b@),
{
    if a.len() != b.len() {
        return false;
    }
    let mut i: usize = 0;
    while i < a.len()
        invariant
            i <= a.len(),
            a.len() == b.len(),
            forall|j: int| 0 <= j < i ==> a@[j] == b@[j],
        decreases a.len() - i,
    {
        if a[i] != b[i] {
            return false;
        }
        i = i + 1;
    }
    proof {
        assert(a@ =~= b@);
    }
    true
}

/// The view of the sentinel hash: twenty zero bytes.
pub open spec fn null_hash() -> Seq<u8> {
    Seq::new(HASH_LEN as nat, |i: int| 0u8)
}

/// The views of a sequence of keys.
pub open spec fn keys_view(s: Seq<Key>) -> Seq<KeyView> {
    s.map_values(|k: Key| k@)
}

/// A content hash identifying a tree object. The all-zero hash is a
/// sentinel meaning "the empty object" and is answered without consulting
/// any storage tier.
#[derive(Debug, PartialEq, Eq, Hash)]
pub struct HgId {
    bytes: Vec<u8>,
}

impl View for HgId {
    type V = Seq<u8>;

    closed spec fn view(&self) -> Seq<u8> {
        self.bytes@
    }
}

impl HgId {
    /// Builds a hash from its twenty bytes.
    pub fn from_byte_vec(bytes: Vec<u8>) -> (r: HgId)
        requires
            bytes@.len() == HASH_LEN,
        ensures
            r@ == bytes@,
    {
        HgId { bytes }
    }

    /// The sentinel hash of the empty object.
    pub fn null_id() -> (r: HgId)
        ensures
            r@ == null_hash(),
    {
        let mut bytes: Vec<u8> = Vec::new();
        let mut i: usize = 0;
        while i < HASH_LEN
            invariant
                i <= HASH_LEN,
                bytes@.len() == i,
                forall|j: int| 0 <= j < i ==> bytes@[j] == 0u8,
            decreases HASH_LEN - i,
        {
            bytes.push(0u8);
            i = i + 1;
        }
        proof {
            assert(bytes@ =~= null_hash());
        }
        HgId { bytes }
    }

    pub open spec fn spec_is_null(&self) -> bool {
        self@ == null_hash()
    }

    /// Whether this is the sentinel hash of the empty object.
    #[verifier::when_used_as_spec(spec_is_null)]
    pub fn is_null(&self) -> (r: bool)
        ensures
            r == self.spec_is_null(),
    {
        if self.bytes.len() != HASH_LEN {
            proof {
                assert(self@ != null_hash());
            }
            return false;
        }
        let mut i: usize = 0;
        while i < HASH_LEN
            invariant
                i <= HASH_LEN,
                self.bytes@.len() == HASH_LEN,
                forall|j: int| 0 <= j < i ==> self.bytes@[j] == 0u8,
            decreases HASH_LEN - i,
        {
            if self.bytes[i] != 0u8 {
                proof {
                    assert(self@[i as int] != null_hash()[i as int]);
                }
                return false;
            }
            i = i + 1;
        }
        proof {
            assert(self@ =~= null_hash());
        }
        true
    }

    /// Compares two hashes by their bytes.
    pub fn same_as(&self, other: &HgId) -> (r: bool)
        ensures
            r == (self@ == other@),
    {
        bytes_eq(&self.bytes, &other.bytes)
    }
}

impl Clone for HgId {
    fn clone(&self) -> (r: HgId)
        ensures
            r@ == self@,
    {
        HgId { bytes: clone_bytes(&self.bytes) }
    }
}

/// The view of a key: its path and its content hash.
#[verifier::ext_equal]
pub struct KeyView {
    pub path: Seq<char>,
    pub hgid: Seq<u8>,
}

impl KeyView {
    /// Whether this key carries the sentinel hash of the empty object.
    pub open spec fn is_null(self) -> bool {
        self.hgid == null_hash()
    }
}

/// The immutable identity of a tree object: a repository path plus the
/// content hash of the tree at that path.
#[derive(Debug, PartialEq, Eq, Hash)]
pub struct Key {
    pub path: String,
    pub hgid: HgId,
}

impl View for Key {
    type V = KeyView;

    open spec fn view(&self) -> KeyView {
        KeyView { path: self.path@, hgid: self.hgid@ }
    }
}

impl Key {
    /// Builds a key from a path and a content hash.
    pub fn new(path: String, hgid: HgId) -> (r: Key)
        ensures
            r@.path == path@,
            r@.hgid == hgid@,
    {
        Key { path, hgid }
    }

    /// Compares two keys structurally.
    pub fn same_as(&self, other: &Key) -> (r: bool)
        ensures
            r == (self@ == other@),
    {
        let r = self.path == other.path && self.hgid.same_as(&other.hgid);
        proof {
            if self@.path == other@.path && self@.hgid == other@.hgid {
                assert(self@ =~= other@);
            }
        }
        r
    }
}

impl Clone for Key {
    fn clone(&self) -> (r: Key)
        ensures
            r@ == self@,
    {
        let r = Key { path: self.path.clone(), hgid: self.hgid.clone() };
        proof {
            assert(r@ =~= self@);
        }
        r
    }
}

/// The view of a parent pair: the two parent hashes.
#[verifier::ext_equal]
pub struct ParentsView {
    pub p1: Seq<u8>,
    pub p2: Seq<u8>,
}

/// The parent linkage of a tree object: up to two parent hashes, with the
/// sentinel hash filling the unused slots.
#[derive(Debug, PartialEq, Eq)]
pub struct Parents {
    pub p1: HgId,
    pub p2: HgId,
}

impl View for Parents {
    type V = ParentsView;

    open spec fn view(&self) -> ParentsView {
        ParentsView { p1: self.p1@, p2: self.p2@ }
    }
}

impl Parents {
    /// Builds a parent pair from two hashes.
    pub fn new(p1: HgId, p2: HgId) -> (r: Parents)
        ensures
            r@.p1 == p1@,
            r@.p2 == p2@,
    {
        Parents { p1, p2 }
    }

    /// The parent pair of an object without parents: both slots sentinel.
    pub fn none_parents() -> (r: Parents)
        ensures
            r@.p1 == null_hash(),
            r@.p2 == null_hash(),
    {
        Parents { p1: HgId::null_id(), p2: HgId::null_id() }
    }
}

impl Clone for Parents {
    fn clone(&self) -> (r: Parents)
        ensures
            r@ == self@,
    {
        let r = Parents { p1: self.p1.clone(), p2: self.p2.clone() };
        proof {
            assert(r@ =~= self@);
        }
        r
    }
}

/// History information for one key: its parent pair and the link revision
/// that introduced it.
#[derive(Debug, PartialEq, Eq)]
pub struct NodeInfo {
    pub parents: Parents,
    pub linknode: HgId,
}

/// The view of a `NodeInfo`.
#[verifier::ext_equal]
pub struct NodeInfoView {
    pub parents: ParentsView,
    pub linknode: Seq<u8>,
}

impl View for NodeInfo {
    type V = NodeInfoView;

    open spec fn view(&self) -> NodeInfoView {
        NodeInfoView { parents: self.parents@, linknode: self.linknode@ }
    }
}

impl Clone for NodeInfo {
    fn clone(&self) -> (r: NodeInfo)
        ensures
            r@ == self@,
    {
        let r = NodeInfo { parents: self.parents.clone(), linknode: self.linknode.clone() };
        proof {
            assert(r@ =~= self@);
        }
        r
    }
}

} // verus!
