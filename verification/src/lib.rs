//! A small artifact delivery service core.
//!
//! Clients upload named binary blobs ("chunks"); the service persists the
//! bytes in a store, records metadata about each blob in a registry, and
//! later serves the blobs back by name, lists them, or deletes them.  A
//! second, read-only mode serves immutable assets resolved through a
//! load-once manifest that maps a logical identifier to a content-hashed
//! filename.
//!
//! The heart of the library is the consistency boundary between the byte
//! store and the metadata registry: every mutating operation leaves the two
//! in agreement, and reads never expose a record whose bytes are missing
//! without saying so distinctly.

pub mod manifest;
pub mod models;
pub mod registry;
pub mod store;
pub mod storage;

use vstd::prelude::*;

verus! {

/// Health-check banner reported by the service root.
pub fn index() -> (r: &'static str)
    ensures
        r@ == "Chunk Server is up \u{1F680}"@,
{
    "Chunk Server is up \u{1F680}"
}

} // verus!
