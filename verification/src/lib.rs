//! A pluggable key-value storage contract with an in-memory backend.
//!
//! A value lives at a [`Placement`]: a namespace type, a namespace and a key.
//! Any backend that implements [`Storage`] answers `get` and `set` by
//! placement, through operation handles that a caller drives to completion.
//! [`MapStorage`] is the in-memory backend: it files every value under one
//! byte string derived from the placement, and that derivation is proved to
//! tell any two placements apart.

pub mod key_encoding;
pub mod laws;
pub mod map_storage;
pub mod placement;
pub mod storage;
mod table;

pub use key_encoding::{contruct_storage_key, word_to_be_bytes};
pub use map_storage::{MapStorage, MapStorageError, MapStorageGetOutput, MapStorageSetOutput};
pub use placement::{NamespaceType, Placement, PlacementView};
pub use storage::{BackendError, Contents, GetOperation, Poll, SetOperation, Storage};
