//! The records that a backup stores: snapshots, directory entries and file
//! entries.
use vstd::prelude::*;

pub mod sub_dir_entry;

verus! {

/// A completed backup: the hash of its root directory entry and when it
/// started and finished (Unix seconds).
pub struct Snapshot {
    pub root_hash: String,
    pub started: i64,
    pub finished: i64,
}

/// A directory: its sub-directories and files, and the total size of the
/// files below it.
pub struct DirEntry {
    pub sub_dir: Vec<SubDirEntry>,
    pub file: Vec<FileEntry>,
    pub size: u64,
}

/// A sub-directory: its name and its entry, inline or by hash.
pub struct SubDirEntry {
    pub name: String,
    pub content: Option<sub_dir_entry::Content>,
}

/// A file: its name, the hash of its content, the hashes of its chunks in
/// order, its size and its modification time (Unix seconds).
pub struct FileEntry {
    pub name: String,
    pub content_hash: String,
    pub chunk_hash: Vec<String>,
    pub size: u64,
    pub modified: i64,
}

/// A file entry as plain values.
pub struct FileEntryView {
    pub name: Seq<char>,
    pub content_hash: Seq<char>,
    pub chunk_hash: Seq<Seq<char>>,
    pub size: u64,
    pub modified: i64,
}

impl View for FileEntry {
    type V = FileEntryView;

    open spec fn view(&self) -> FileEntryView {
        FileEntryView {
            name: self.name@,
            content_hash: self.content_hash@,
            chunk_hash: self.chunk_hash@.map_values(|h: String| h@),
            size: self.size,
            modified: self.modified,
        }
    }
}

/// Copies a list of strings.
fn clone_strings(v: &Vec<String>) -> (c: Vec<String>)
    ensures
        c@.map_values(|h: String| h@) == v@.map_values(|h: String| h@),
{
    let mut c: Vec<String> = Vec::new();
    let mut i: usize = 0;
    while i < v.len()
        invariant
            0 <= i <= v@.len(),
            c@.len() == i,
            forall|k: int| 0 <= k < i ==> #[trigger] c@[k]@ == v@[k]@,
        decreases v@.len() - i,
    {
        c.push(v[i].clone());
        i = i + 1;
    }
    assert(c@.map_values(|h: String| h@) =~= v@.map_values(|h: String| h@));
    c
}

impl Clone for FileEntry {
    fn clone(&self) -> (c: Self)
        ensures
            c@ == self@,
    {
        FileEntry {
            name: self.name.clone(),
            content_hash: self.content_hash.clone(),
            chunk_hash: clone_strings(&self.chunk_hash),
            size: self.size,
            modified: self.modified,
        }
    }
}

} // verus!
