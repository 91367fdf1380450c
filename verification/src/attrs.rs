//! The attribute mask: which facets of a tree object a caller asks for.

use vstd::prelude::*;

verus! {

/// A set of independently requestable facets of a tree object: the raw
/// content bytes and the parent linkage. Union, intersection and difference
/// are field-wise; the empty mask means "nothing requested" and is never
/// dispatched to a storage tier.
#[derive(Clone, Copy, Debug, PartialEq, Eq, Structural)]
pub struct TreeAttributes {
    pub content: bool,
    pub parents: bool,
}

impl TreeAttributes {
    pub open spec fn spec_empty() -> TreeAttributes {
        TreeAttributes { content: false, parents: false }
    }

    pub open spec fn spec_content() -> TreeAttributes {
        TreeAttributes { content: true, parents: false }
    }

    pub open spec fn spec_parents() -> TreeAttributes {
        TreeAttributes { content: false, parents: true }
    }

    pub open spec fn spec_all() -> TreeAttributes {
        TreeAttributes { content: true, parents: true }
    }

    /// The empty mask: no facet requested.
    #[verifier::when_used_as_spec(spec_empty)]
    pub fn empty() -> (r: TreeAttributes)
        ensures
            r == TreeAttributes::spec_empty(),
    {
        TreeAttributes { content: false, parents: false }
    }

    /// The mask holding only the content facet.
    #[verifier::when_used_as_spec(spec_content)]
    pub fn content_only() -> (r: TreeAttributes)
        ensures
            r == TreeAttributes::spec_content(),
    {
        TreeAttributes { content: true, parents: false }
    }

    /// The mask holding only the parents facet.
    #[verifier::when_used_as_spec(spec_parents)]
    pub fn parents_only() -> (r: TreeAttributes)
        ensures
            r == TreeAttributes::spec_parents(),
    {
        TreeAttributes { content: false, parents: true }
    }

    /// The mask holding every facet.
    #[verifier::when_used_as_spec(spec_all)]
    pub fn all() -> (r: TreeAttributes)
        ensures
            r == TreeAttributes::spec_all(),
    {
        TreeAttributes { content: true, parents: true }
    }

    pub open spec fn spec_is_empty(self) -> bool {
        !self.content && !self.parents
    }

    /// Whether no facet is set.
    #[verifier::when_used_as_spec(spec_is_empty)]
    pub fn is_empty(self) -> (r: bool)
        ensures
            r == self.spec_is_empty(),
    {
        !self.content && !self.parents
    }

    pub open spec fn spec_union(self, other: TreeAttributes) -> TreeAttributes {
        TreeAttributes {
            content: self.content || other.content,
            parents: self.parents || other.parents,
        }
    }

    /// Field-wise union of two masks.
    #[verifier::when_used_as_spec(spec_union)]
    pub fn union(self, other: TreeAttributes) -> (r: TreeAttributes)
        ensures
            r == self.spec_union(other),
    {
        TreeAttributes {
            content: self.content || other.content,
            parents: self.parents || other.parents,
        }
    }

    pub open spec fn spec_intersect(self, other: TreeAttributes) -> TreeAttributes {
        TreeAttributes {
            content: self.content && other.content,
            parents: self.parents && other.parents,
        }
    }

    /// Field-wise intersection of two masks.
    #[verifier::when_used_as_spec(spec_intersect)]
    pub fn intersect(self, other: TreeAttributes) -> (r: TreeAttributes)
        ensures
            r == self.spec_intersect(other),
    {
        TreeAttributes {
            content: self.content && other.content,
            parents: self.parents && other.parents,
        }
    }

    pub open spec fn spec_subtract(self, other: TreeAttributes) -> TreeAttributes {
        TreeAttributes {
            content: self.content && !other.content,
            parents: self.parents && !other.parents,
        }
    }

    /// The facets of `self` that are not in `other`.
    #[verifier::when_used_as_spec(spec_subtract)]
    pub fn subtract(self, other: TreeAttributes) -> (r: TreeAttributes)
        ensures
            r == self.spec_subtract(other),
    {
        TreeAttributes {
            content: self.content && !other.content,
            parents: self.parents && !other.parents,
        }
    }

    pub open spec fn spec_contains(self, other: TreeAttributes) -> bool {
        (other.content ==> self.content) && (other.parents ==> self.parents)
    }

    /// Whether every facet of `other` is also in `self`.
    #[verifier::when_used_as_spec(spec_contains)]
    pub fn contains(self, other: TreeAttributes) -> (r: bool)
        ensures
            r == self.spec_contains(other),
    {
        (!other.content || self.content) && (!other.parents || self.parents)
    }
}

} // verus!
