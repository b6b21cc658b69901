//! The archive configuration, as read from the configuration file.
use vstd::prelude::*;

verus! {

/// Where an archive's data is stored.
pub enum StorageConfig {
    File(FileStorageConfig),
}

/// A storage in a local directory.
pub struct FileStorageConfig {
    pub path: String,
}

/// The configuration of an archive.
pub struct ArchiveConfig {
    /// The directory to back up, relative to the configuration file;
    /// `default_path()` when the file leaves it out.
    pub path: String,
    pub name: String,
    pub storage: StorageConfig,
}

/// The backup directory used when the configuration names none: the parent
/// of the configuration's directory.
pub fn default_path() -> (path: String)
    ensures
        path@ == seq!['.', '.'],
{
    proof {
        reveal_strlit("..");
    }
    "..".to_owned()
}

} // verus!
