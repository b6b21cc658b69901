//! The content of a sub-directory entry.
use vstd::prelude::*;

use super::DirEntry;

verus! {

/// A sub-directory's entry: stored inline, or by the hash of a stored blob.
pub enum Content {
    Inline(DirEntry),
    Hash(String),
}

} // verus!
