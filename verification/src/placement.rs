//! The request descriptor: where a value lives.

use vstd::prelude::*;

verus! {

/// The top-level partition of the key space. The same namespace and key
/// under different namespace types name different values.
#[derive(Clone, Copy, Debug)]
pub enum NamespaceType {
    User,
    System,
}

/// Where a value lives. A placement borrows its namespace and key; it is
/// built right before a `get` or `set` and consumed by it.
#[derive(Clone, Copy, Debug)]
pub struct Placement<'a> {
    pub namespace_type: NamespaceType,
    pub namespace: &'a [u8],
    pub key: &'a [u8],
}

/// What a [`Placement`] denotes: its namespace type and the bytes of its
/// namespace and key.
pub struct PlacementView {
    pub namespace_type: NamespaceType,
    pub namespace: Seq<u8>,
    pub key: Seq<u8>,
}

impl PlacementView {
    /// The namespace is short enough for its length to fit a machine word.
    /// This holds of every placement that a program can build.
    pub open spec fn representable(self) -> bool {
        self.namespace.len() <= usize::MAX
    }
}

impl<'a> View for Placement<'a> {
    type V = PlacementView;

    open spec fn view(&self) -> PlacementView {
        PlacementView {
            namespace_type: self.namespace_type,
            namespace: self.namespace@,
            key: self.key@,
        }
    }
}

impl<'a> Placement<'a> {
    /// Every placement in memory is representable.
    pub proof fn lemma_representable(&self)
        ensures
            self@.representable(),
    {
        assert(self.namespace@.len() == self.namespace.len());
    }
}

} // verus!
