//! What the library needs to know of the key/value store backends.

use vstd::prelude::*;

verus! {

/// An error reported by a key/value store backend, carried as the text by
/// which the backend describes it.
#[derive(Debug)]
pub struct StoreError {
    pub message: String,
}

} // verus!
