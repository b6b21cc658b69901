//! Where a storage backend keeps items: the collections and the paths of
//! items inside them.
use vstd::prelude::*;

pub mod file;
pub mod util;

verus! {

/// The collections that a storage backend holds items in.
pub enum Collection {
    Snapshot,
    Blob,
}

} // verus!
