//! The in-memory backend: a table from encoded storage keys to values.

use vstd::prelude::*;
use vstd::slice::slice_to_vec;
use crate::key_encoding::{contruct_storage_key, lemma_storage_key_injective, storage_key};
use crate::placement::{Placement, PlacementView};
use crate::storage::{
    after_set, value_at, BackendError, Contents, GetOperation, Poll, SetOperation, Storage,
};
use crate::table::Table;

verus! {

/// The contents that a table of encoded keys stands for: a placement holds
/// the value that the table has under the placement's storage key.
pub open spec fn contents_of(table: Map<Seq<u8>, Seq<u8>>) -> Map<PlacementView, Seq<u8>> {
    Map::new(
        |placement: PlacementView|
            placement.representable() && table.dom().contains(storage_key(placement)),
        |placement: PlacementView| table[storage_key(placement)],
    )
}

/// Reading a placement is looking up its storage key.
pub proof fn lemma_contents_get(table: Map<Seq<u8>, Seq<u8>>, placement: PlacementView)
    requires
        placement.representable(),
    ensures
        value_at(contents_of(table), placement) == table.get(storage_key(placement)),
{
}

/// Writing under a placement's storage key writes to that placement and to
/// no other.
pub proof fn lemma_contents_insert(
    table: Map<Seq<u8>, Seq<u8>>,
    placement: PlacementView,
    data: Seq<u8>,
)
    requires
        placement.representable(),
    ensures
        contents_of(table.insert(storage_key(placement), data)) == after_set(
            contents_of(table),
            placement,
            data,
        ),
{
    assert forall|other: PlacementView|
        other.representable() && other != placement implies storage_key(other) != storage_key(
        placement,
    ) by {
        lemma_storage_key_injective(other, placement);
    }
}

/// The in-memory backend. It starts empty; a completed `set` creates or
/// overwrites one entry, and nothing ever removes one. Its operations are
/// complete the first time they are driven.
pub struct MapStorage {
    backend: Table,
}

/// The error of the in-memory backend. No operation of this backend ever
/// reports it.
#[derive(Debug)]
pub struct MapStorageError {}

/// A read of a [`MapStorage`] in flight.
pub struct MapStorageGetOutput<'a> {
    placement: Placement<'a>,
    db: &'a MapStorage,
}

/// A write to a [`MapStorage`] in flight.
pub struct MapStorageSetOutput<'a> {
    placement: Placement<'a>,
    data: &'a [u8],
    db: &'a mut MapStorage,
}

/// A write handle that is out of use has left its backend as it is.
proof fn lemma_released(operation: MapStorageSetOutput)
    ensures
        has_resolved(operation) ==> *final(operation.backend()) == *operation.backend(),
{
    if has_resolved(operation) {
        assert(has_resolved(operation.db));
    }
}

impl View for MapStorage {
    type V = Map<Seq<u8>, Seq<u8>>;

    /// The table: the value stored under each encoded storage key.
    closed spec fn view(&self) -> Map<Seq<u8>, Seq<u8>> {
        self.backend@
    }
}

impl MapStorage {
    /// An empty backend.
    pub fn new() -> (storage: Self)
        ensures
            storage@ == Map::<Seq<u8>, Seq<u8>>::empty(),
            storage.contents() == Map::<PlacementView, Seq<u8>>::empty(),
    {
        MapStorage { backend: Table::new() }
    }
}

impl Default for MapStorage {
    fn default() -> (storage: Self)
        ensures
            storage@ == Map::<Seq<u8>, Seq<u8>>::empty(),
            storage.contents() == Map::<PlacementView, Seq<u8>>::empty(),
    {
        MapStorage::new()
    }
}

impl Contents for MapStorage {
    open spec fn contents(&self) -> Map<PlacementView, Seq<u8>> {
        contents_of(self@)
    }
}

impl<'a> Storage<'a> for MapStorage {
    type SetOutput = MapStorageSetOutput<'a>;

    type GetOutput = MapStorageGetOutput<'a>;

    type Error = MapStorageError;

    /// A handle that reads `placement` from this backend.
    fn get(&'a self, placement: Placement<'a>) -> (operation: MapStorageGetOutput<'a>) {
        MapStorageGetOutput { placement, db: self }
    }

    /// A handle that writes `data` to `placement` in this backend.
    fn set(&'a mut self, placement: Placement<'a>, data: &'a [u8]) -> (operation:
        MapStorageSetOutput<'a>) {
        let operation = MapStorageSetOutput { placement, data, db: self };
        proof {
            lemma_released(operation);
        }
        operation
    }
}

impl<'a> GetOperation for MapStorageGetOutput<'a> {
    type Backend = MapStorage;

    type Error = MapStorageError;

    closed spec fn backend(&self) -> &MapStorage {
        self.db
    }

    closed spec fn placement(&self) -> PlacementView {
        self.placement@
    }

    /// Looks the placement up. The read is complete at once and never
    /// fails.
    fn poll(&mut self) -> (progress: Poll<Result<Option<Vec<u8>>, MapStorageError>>)
        ensures
            progress matches Poll::Ready(Ok(found)) && found.deep_view() == old(self).backend()@.get(
                storage_key(old(self).placement()),
            ),
    {
        let key: Vec<u8> = contruct_storage_key(&self.placement);
        proof {
            self.placement.lemma_representable();
            lemma_contents_get(self.db@, self.placement@);
        }
        let found: Option<Vec<u8>> = match self.db.backend.get(key.as_slice()) {
            Some(value) => Some(value.clone()),
            None => None,
        };
        Poll::Ready(Ok(found))
    }
}

impl<'a> SetOperation for MapStorageSetOutput<'a> {
    type Backend = MapStorage;

    type Error = MapStorageError;

    closed spec fn backend(&self) -> &mut MapStorage {
        self.db
    }

    closed spec fn placement(&self) -> PlacementView {
        self.placement@
    }

    closed spec fn data(&self) -> Seq<u8> {
        self.data@
    }

    /// Stores the data under the placement's storage key. The write is
    /// complete at once and never fails.
    fn poll(&mut self) -> (progress: Poll<Result<(), MapStorageError>>)
        ensures
            progress matches Poll::Ready(Ok(_)),
            final(self).backend()@ == old(self).backend()@.insert(
                storage_key(old(self).placement()),
                old(self).data(),
            ),
    {
        let key: Vec<u8> = contruct_storage_key(&self.placement);
        proof {
            self.placement.lemma_representable();
            lemma_contents_insert(self.db@, self.placement@, self.data@);
        }
        self.db.backend.insert(key, slice_to_vec(self.data));
        proof {
            lemma_released(*self);
        }
        Poll::Ready(Ok(()))
    }
}

impl BackendError for MapStorageError {
    fn description(&self) -> (text: String)
        ensures
            text@ == "some_error_thingy"@,
    {
        "some_error_thingy".to_owned()
    }
}

} // verus!
