//! Small helpers of the git import path: tag-name normalisation, the
//! repository display name, and the uploader handle with its re-upload
//! policy.

use std::sync::Arc;

use vstd::prelude::*;
use vstd::string::StrSliceExecFns;

use crate::tiers::assoc_lookup;
use crate::types::clone_bytes;

verus! {

/// What `stored_tag_name` returns: the tag name with a leading `refs/`
/// dropped.
pub open spec fn stored_tag_name_spec(t: Seq<char>) -> Seq<char> {
    if t.len() >= 5 && t.subrange(0, 5) == seq!['r', 'e', 'f', 's', '/'] {
        t.subrange(5, t.len() as int)
    } else {
        t
    }
}

/// The name a tag is stored under: the tag's own name, with a leading
/// `refs/` dropped where the caller handed a full reference name.
pub fn stored_tag_name(tag_name: String) -> (r: String)
    ensures
        r@ == stored_tag_name_spec(tag_name@),
{
    let st = tag_name.as_str();
    let n = st.unicode_len();
    if n >= 5 && st.get_char(0) == 'r' && st.get_char(1) == 'e' && st.get_char(2) == 'f'
        && st.get_char(3) == 's' && st.get_char(4) == '/' {
        proof {
            assert(tag_name@.subrange(0, 5) =~= seq!['r', 'e', 'f', 's', '/']);
        }
        let rest = st.substring_char(5, n);
        rest.to_owned()
    } else {
        proof {
            if tag_name@.len() >= 5 {
                assert(tag_name@.subrange(0, 5) != seq!['r', 'e', 'f', 's', '/']) by {
                    if tag_name@.subrange(0, 5) == seq!['r', 'e', 'f', 's', '/'] {
                        assert(tag_name@[0] == tag_name@.subrange(0, 5)[0]);
                        assert(tag_name@[1] == tag_name@.subrange(0, 5)[1]);
                        assert(tag_name@[2] == tag_name@.subrange(0, 5)[2]);
                        assert(tag_name@[3] == tag_name@.subrange(0, 5)[3]);
                        assert(tag_name@[4] == tag_name@.subrange(0, 5)[4]);
                    }
                }
            }
        }
        tag_name
    }
}

/// Preferences of one import run. Only what the helpers here read is
/// modelled: an explicit repository name, if the caller chose one.
#[derive(Debug)]
pub struct GitimportPreferences {
    pub gitrepo_name: Option<String>,
}

impl GitimportPreferences {
    /// Preferences with nothing chosen.
    pub fn new() -> (r: GitimportPreferences)
        ensures
            r.gitrepo_name is None,
    {
        GitimportPreferences { gitrepo_name: None }
    }
}

/// What `repo_name` returns for a slash-separated repository path: the
/// explicitly chosen name where there is one; else the path, with a final
/// `.git` component dropped.
pub open spec fn repo_name_spec(name: Option<Seq<char>>, path: Seq<char>) -> Seq<char> {
    match name {
        Some(n) => n,
        None => {
            if path.len() == 4 && path == seq!['.', 'g', 'i', 't'] {
                Seq::empty()
            } else if path.len() >= 5 && path.subrange(path.len() - 5, path.len() as int) == seq![
                '/',
                '.',
                'g',
                'i',
                't',
            ] {
                path.subrange(0, path.len() - 5)
            } else {
                path
            }
        },
    }
}

/// The display name of the repository an import reads from: the name the
/// preferences chose, or the repository's slash-separated path, with a
/// final `.git` component dropped.
pub fn repo_name(prefs: &GitimportPreferences, path: &str) -> (r: String)
    ensures
        r@ == repo_name_spec(
            (match prefs.gitrepo_name {
                Some(n) => Some(n@),
                None => None,
            }),
            path@,
        ),
{
    match &prefs.gitrepo_name {
        Some(n) => n.clone(),
        None => {
            let len = path.unicode_len();
            if len == 4 && path.get_char(0) == '.' && path.get_char(1) == 'g' && path.get_char(2)
                == 'i' && path.get_char(3) == 't' {
                proof {
                    assert(path@ =~= seq!['.', 'g', 'i', 't']);
                    assert(repo_name_spec(None, path@) =~= Seq::<char>::empty());
                }
                String::new()
            } else if len >= 5 && path.get_char(len - 5) == '/' && path.get_char(len - 4) == '.'
                && path.get_char(len - 3) == 'g' && path.get_char(len - 2) == 'i' && path.get_char(
                len - 1,
            ) == 't' {
                proof {
                    assert(path@.subrange(path@.len() - 5, path@.len() as int) =~= seq![
                        '/',
                        '.',
                        'g',
                        'i',
                        't',
                    ]);
                }
                let front = path.substring_char(0, len - 5);
                front.to_owned()
            } else {
                proof {
                    if path@.len() == 4 && path@ == seq!['.', 'g', 'i', 't'] {
                        assert(path@[0] == '.' && path@[1] == 'g' && path@[2] == 'i' && path@[3]
                            == 't');
                    }
                    if path@.len() >= 5 {
                        let tail = path@.subrange(path@.len() - 5, path@.len() as int);
                        if tail == seq!['/', '.', 'g', 'i', 't'] {
                            assert(path@[path@.len() - 5] == tail[0]);
                            assert(path@[path@.len() - 4] == tail[1]);
                            assert(path@[path@.len() - 3] == tail[2]);
                            assert(path@[path@.len() - 2] == tail[3]);
                            assert(path@[path@.len() - 1] == tail[4]);
                        }
                    }
                }
                path.to_owned()
            }
        },
    }
}

/// Whether commits already known to the target are imported again.
#[derive(Clone, Copy, Debug, PartialEq, Eq, Structural)]
pub enum ReuploadCommits {
    Never,
    Always,
}

impl ReuploadCommits {
    /// Whether a commit already known to the target is uploaded again.
    pub fn reupload_commit(&self) -> (r: bool)
        ensures
            r == (*self is Always),
    {
        match self {
            ReuploadCommits::Never => false,
            ReuploadCommits::Always => true,
        }
    }
}

/// A handle that uploads imported objects straight into a repository,
/// shared across the import's worker tasks, with its re-upload policy.
#[derive(Debug)]
pub struct DirectUploader<R> {
    pub inner: Arc<R>,
    pub reupload_commits: ReuploadCommits,
}

impl<R> DirectUploader<R> {
    /// Wraps a repository for direct uploads under the given re-upload
    /// policy.
    pub fn new(repo: R, reupload_commits: ReuploadCommits) -> (r: DirectUploader<R>)
        ensures
            r.inner == repo,
            r.reupload_commits == reupload_commits,
    {
        DirectUploader { inner: Arc::new(repo), reupload_commits }
    }
}

/// The identity of an imported git object: its twenty-byte hash.
#[derive(Debug, PartialEq, Eq, Hash)]
pub struct ObjectId {
    bytes: Vec<u8>,
}

impl View for ObjectId {
    type V = Seq<u8>;

    closed spec fn view(&self) -> Seq<u8> {
        self.bytes@
    }
}

impl ObjectId {
    /// Builds an object id from its twenty bytes.
    pub fn from_byte_vec(bytes: Vec<u8>) -> (r: ObjectId)
        requires
            bytes@.len() == 20,
        ensures
            r@ == bytes@,
    {
        ObjectId { bytes }
    }

    /// Compares two object ids by their bytes.
    pub fn same_as(&self, other: &ObjectId) -> (r: bool)
        ensures
            r == (self@ == other@),
    {
        crate::types::bytes_eq(&self.bytes, &other.bytes)
    }
}

impl Clone for ObjectId {
    fn clone(&self) -> (r: ObjectId)
        ensures
            r@ == self@,
    {
        ObjectId { bytes: clone_bytes(&self.bytes) }
    }
}

/// The identity of the changeset an object became: its thirty-two-byte
/// hash.
#[derive(Debug, PartialEq, Eq, Hash)]
pub struct ChangesetId {
    bytes: Vec<u8>,
}

impl View for ChangesetId {
    type V = Seq<u8>;

    closed spec fn view(&self) -> Seq<u8> {
        self.bytes@
    }
}

impl ChangesetId {
    /// Builds a changeset id from its thirty-two bytes.
    pub fn from_byte_vec(bytes: Vec<u8>) -> (r: ChangesetId)
        requires
            bytes@.len() == 32,
        ensures
            r@ == bytes@,
    {
        ChangesetId { bytes }
    }
}

impl Clone for ChangesetId {
    fn clone(&self) -> (r: ChangesetId)
        ensures
            r@ == self@,
    {
        ChangesetId { bytes: clone_bytes(&self.bytes) }
    }
}

/// The position of the first entry keyed by `k`, if any.
pub open spec fn acc_find(entries: Seq<(Seq<u8>, Seq<u8>)>, k: Seq<u8>) -> Option<int>
    decreases entries.len(),
{
    if entries.len() == 0 {
        None
    } else if entries[0].0 == k {
        Some(0int)
    } else {
        match acc_find(entries.drop_first(), k) {
            Some(i) => Some(i + 1),
            None => None,
        }
    }
}

/// Where the first entry keyed by `k` sits at `i`, `acc_find` returns it.
pub proof fn lemma_acc_find_at(entries: Seq<(Seq<u8>, Seq<u8>)>, k: Seq<u8>, i: int)
    requires
        0 <= i < entries.len(),
        entries[i].0 == k,
        forall|j: int| 0 <= j < i ==> entries[j].0 != k,
    ensures
        acc_find(entries, k) == Some(i),
    decreases i,
{
    if i > 0 {
        lemma_acc_find_at(entries.drop_first(), k, i - 1);
    }
}

/// Where no entry is keyed by `k`, `acc_find` returns nothing.
pub proof fn lemma_acc_find_none(entries: Seq<(Seq<u8>, Seq<u8>)>, k: Seq<u8>)
    requires
        forall|j: int| 0 <= j < entries.len() ==> entries[j].0 != k,
    ensures
        acc_find(entries, k) is None,
    decreases entries.len(),
{
    if entries.len() > 0 {
        lemma_acc_find_none(entries.drop_first(), k);
    }
}

/// What one import run has accumulated: for each imported git object, in
/// import order, the changeset it became. Re-inserting an object keeps its
/// position and replaces the changeset.
#[derive(Debug)]
pub struct GitimportAccumulator {
    entries: Vec<(ObjectId, ChangesetId)>,
}

impl View for GitimportAccumulator {
    type V = Seq<(Seq<u8>, Seq<u8>)>;

    closed spec fn view(&self) -> Seq<(Seq<u8>, Seq<u8>)> {
        self.entries@.map_values(|p: (ObjectId, ChangesetId)| (p.0@, p.1@))
    }
}

impl GitimportAccumulator {
    /// An empty accumulator.
    pub fn new() -> (r: GitimportAccumulator)
        ensures
            r@ == Seq::<(Seq<u8>, Seq<u8>)>::empty(),
    {
        let r = GitimportAccumulator { entries: Vec::new() };
        proof {
            assert(r@ =~= Seq::<(Seq<u8>, Seq<u8>)>::empty());
        }
        r
    }

    /// How many objects were imported so far.
    pub fn len(&self) -> (r: usize)
        ensures
            r == self@.len(),
    {
        self.entries.len()
    }

    /// Whether nothing was imported yet.
    pub fn is_empty(&self) -> (r: bool)
        ensures
            r == (self@.len() == 0),
    {
        self.entries.is_empty()
    }

    /// Records the changeset an object became. A re-inserted object keeps
    /// its position; the changeset is replaced.
    pub fn insert(&mut self, oid: ObjectId, cs_id: ChangesetId)
        ensures
            final(self)@ == (match acc_find(old(self)@, oid@) {
                Some(i) => old(self)@.update(i, (oid@, cs_id@)),
                None => old(self)@.push((oid@, cs_id@)),
            }),
    {
        let mut i: usize = 0;
        while i < self.entries.len()
            invariant
                i <= self.entries.len(),
                self@ == old(self)@,
                forall|j: int| 0 <= j < i ==> self@[j].0 != oid@,
            decreases self.entries.len() - i,
        {
            if self.entries[i].0.same_as(&oid) {
                proof {
                    lemma_acc_find_at(self@, oid@, i as int);
                }
                self.entries.set(i, (oid, cs_id));
                proof {
                    assert(self@ =~= old(self)@.update(i as int, (self.entries@[i as int].0@, self.entries@[i as int].1@)));
                }
                return ;
            }
            i = i + 1;
        }
        proof {
            lemma_acc_find_none(self@, oid@);
        }
        self.entries.push((oid, cs_id));
        proof {
            assert(self@ =~= old(self)@.push((self.entries@.last().0@, self.entries@.last().1@)));
        }
    }

    /// The changeset the object became, if it was imported.
    pub fn get(&self, oid: &ObjectId) -> (r: Option<ChangesetId>)
        ensures
            match r {
                Some(cs) => assoc_lookup(self@, oid@) == Some(cs@),
                None => assoc_lookup(self@, oid@) is None,
            },
    {
        let mut i: usize = 0;
        while i < self.entries.len()
            invariant
                i <= self.entries.len(),
                forall|j: int| 0 <= j < i ==> self@[j].0 != oid@,
            decreases self.entries.len() - i,
        {
            if self.entries[i].0.same_as(oid) {
                proof {
                    crate::tiers::lemma_assoc_lookup_at(self@, oid@, i as int);
                }
                return Some(self.entries[i].1.clone());
            }
            i = i + 1;
        }
        proof {
            crate::tiers::lemma_assoc_lookup_none(self@, oid@);
        }
        None
    }
}

} // verus!
