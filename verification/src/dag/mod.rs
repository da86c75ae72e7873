//! What the library needs to know of the chunk store.

use vstd::prelude::*;

use crate::kv::StoreError;

pub mod meta;

verus! {

/// An error of the chunk store.
#[derive(Debug)]
pub enum Error {
    /// The key/value store under the chunk store failed.
    Storage(StoreError),
}

} // verus!
