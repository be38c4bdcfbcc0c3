//! The storage contract: what every backend offers, and what it owes.
//!
//! `get` and `set` do not act at once. Each hands back an operation handle,
//! and the operation takes place when the caller drives the handle with
//! `poll`, once or, for a backend that has to wait, several times. A handle
//! borrows its backend for as long as it lives: reads share the backend,
//! a write holds it alone.
//!
//! A backend owes its callers three things. Placements are isolated: a
//! write changes the value at its own placement and at no other, whatever
//! namespace type, namespace or key the two have in common. The last writer
//! wins: a write replaces what was stored, unconditionally. And a read
//! reports what the last completed write to its placement stored, or
//! nothing.

use vstd::prelude::*;
use crate::placement::{Placement, PlacementView};

verus! {

/// What driving an operation handle once reports.
#[derive(Debug)]
pub enum Poll<T> {
    /// The operation is complete, with this result.
    Ready(T),
    /// The operation is not complete yet: drive it again.
    Pending,
}

/// What a backend reports when it cannot complete a read or a write.
pub trait BackendError {
    /// A description of the failure, for a log or a report.
    fn description(&self) -> String;
}

/// The state of a backend.
pub trait Contents {
    /// The value stored at each placement that holds one.
    spec fn contents(&self) -> Map<PlacementView, Seq<u8>>;
}

/// The contents that a completed write of `data` to `placement` leaves:
/// the value is created if absent, overwritten if present.
pub open spec fn after_set(
    contents: Map<PlacementView, Seq<u8>>,
    placement: PlacementView,
    data: Seq<u8>,
) -> Map<PlacementView, Seq<u8>> {
    contents.insert(placement, data)
}

/// What a completed read of `placement` reports: the value stored there,
/// or nothing.
pub open spec fn value_at(
    contents: Map<PlacementView, Seq<u8>>,
    placement: PlacementView,
) -> Option<Seq<u8>> {
    contents.get(placement)
}

/// A read in flight.
pub trait GetOperation: Sized {
    type Backend: Contents;

    type Error;

    /// The backend that is read.
    spec fn backend(&self) -> &Self::Backend;

    /// The placement that is read.
    spec fn placement(&self) -> PlacementView;

    /// Drives the read. A read that completes without an error reports a
    /// copy of the value stored at the placement, or nothing where none is
    /// stored. The handle goes on reading the same placement of the same
    /// backend.
    fn poll(&mut self) -> (progress: Poll<Result<Option<Vec<u8>>, Self::Error>>)
        ensures
            progress matches Poll::Ready(Ok(found)) ==> found.deep_view() == value_at(
                old(self).backend().contents(),
                old(self).placement(),
            ),
            final(self).backend() == old(self).backend(),
            final(self).placement() == old(self).placement(),
    ;
}

/// A write in flight.
///
/// The handle holds the one mutable borrow of its backend. In a contract,
/// `*handle.backend()` is the backend as the handle has left it so far, and
/// `*final(handle.backend())` is the backend as the borrow will return it.
/// The two are the same once the handle is out of use.
pub trait SetOperation: Sized {
    type Backend: Contents;

    type Error;

    /// The borrow of the backend that is written to.
    spec fn backend(&self) -> &mut Self::Backend;

    /// The placement that is written.
    spec fn placement(&self) -> PlacementView;

    /// The bytes that are written.
    spec fn data(&self) -> Seq<u8>;

    /// Drives the write. A write that completes without an error has stored
    /// a copy of the data at the placement, in place of any value stored
    /// there before. Whatever is reported, no other placement has changed,
    /// and the handle goes on writing the same data to the same placement
    /// through the same borrow.
    fn poll(&mut self) -> (progress: Poll<Result<(), Self::Error>>)
        ensures
            progress matches Poll::Ready(Ok(_)) ==> final(self).backend().contents() == after_set(
                old(self).backend().contents(),
                old(self).placement(),
                old(self).data(),
            ),
            forall|other: PlacementView|
                other != old(self).placement() ==> value_at(
                    final(self).backend().contents(),
                    other,
                ) == value_at(old(self).backend().contents(), other),
            final(self).placement() == old(self).placement(),
            final(self).data() == old(self).data(),
            *final(final(self).backend()) == *final(old(self).backend()),
            has_resolved(*final(self)) ==> *final(final(self).backend()) == *final(self).backend(),
    ;
}

/// A key-value backend, addressed by placement.
pub trait Storage<'a>: Contents + Sized {
    type SetOutput: SetOperation<Backend = Self, Error = Self::Error>;

    type GetOutput: GetOperation<Backend = Self, Error = Self::Error>;

    type Error: BackendError;

    /// Starts a read of the value stored at `placement`. The handle reads
    /// this backend as it is now: while the handle lives, nothing can write
    /// to the backend.
    fn get(&'a self, placement: Placement<'a>) -> (operation: Self::GetOutput)
        ensures
            operation.backend() == self,
            operation.placement() == placement@,
    ;

    /// Starts a write of `data` to `placement`. Nothing is written before
    /// the handle is driven. What the handle has done to the backend when
    /// it goes out of use is what the backend then shows.
    fn set(&'a mut self, placement: Placement<'a>, data: &'a [u8]) -> (operation: Self::SetOutput)
        ensures
            operation.placement() == placement@,
            operation.data() == data@,
            *operation.backend() == *old(self),
            *final(operation.backend()) == *final(self),
            has_resolved(operation) ==> *final(operation.backend()) == *operation.backend(),
    ;
}

} // verus!
