//! The decisions of the restore command: what to do with an existing target
//! and how failures to read a snapshot are reported.
use vstd::prelude::*;
use vstd::string::StringExecFns;

use vstd::utf8::*;

use super::common::{
    numbered_snapshot_key, snapshot_key, snapshot_key_text, CommandError, CommandErrorKind,
    ErrorSource,
};
use crate::util::text::{bytes_equal, decimal_text};

verus! {

/// The arguments of the restore command.
pub struct RestoreArgs {
    /// The snapshot to restore.
    pub snapshot: String,
    /// Keep going on errors.
    pub keep_going: bool,
    /// Don't override existing files.
    pub no_override_files: bool,
}

/// Whether a snapshot argument asks for the latest snapshot.
pub fn is_latest(snapshot: &str) -> (r: bool)
    ensures
        r == (snapshot@ == "latest"@),
{
    broadcast use vstd::utf8::group_utf8_lib;

    let latest = "latest";
    let same = bytes_equal(snapshot.as_bytes(), latest.as_bytes());
    proof {
        if same {
            assert(decode_utf8(encode_utf8(snapshot@)) == decode_utf8(encode_utf8(latest@)));
        }
    }
    same
}

/// The storage key of the snapshot that a restore reads: `latest` stands
/// for the snapshot numbered `highest`, the highest of the archive; any
/// other argument names the snapshot itself.
pub fn restore_snapshot_key(archive_name: &str, snapshot: &str, highest: u32) -> (key: String)
    ensures
        key@ == if snapshot@ == "latest"@ {
            snapshot_key_text(archive_name@, decimal_text(highest as nat))
        } else {
            snapshot_key_text(archive_name@, snapshot@)
        },
{
    if is_latest(snapshot) {
        numbered_snapshot_key(archive_name, highest)
    } else {
        snapshot_key(archive_name, snapshot)
    }
}

/// What is at the place a file is restored to.
pub enum ExistingTarget {
    /// Nothing (or its metadata could not be read).
    Missing,
    /// A file of this size, with its modification time when it could be
    /// read.
    Present { size: u64, modified: Option<i64> },
}

/// What restoring a file does.
pub enum FileRestorePlan {
    /// The existing file is taken to hold the content already.
    Skip,
    /// Refuse: a different file exists and must not be overridden.
    Conflict,
    /// Write the file; `create_new` opens it only if it does not exist yet,
    /// otherwise it is created or truncated.
    Write { create_new: bool },
}

/// Whether an existing file is taken to match the one restored: its
/// modification time could be read and its size or its modification time
/// agrees with the backed-up file.
pub open spec fn existing_matches(existing: ExistingTarget, size: u64, modified: i64) -> bool {
    match existing {
        ExistingTarget::Missing => false,
        ExistingTarget::Present { size: existing_size, modified: existing_modified } => {
            match existing_modified {
                Some(m) => !(existing_size != size && m != modified),
                None => false,
            }
        },
    }
}

/// Decides how to restore a file of the given size and modification time.
/// A differing existing file is overridden (created or truncated) unless
/// `no_override_files` is set, in which case the restore refuses it; a
/// missing file is created, and with `no_override_files` only if it still
/// does not exist when it is opened.
pub fn plan_file_restore(existing: ExistingTarget, size: u64, modified: i64, no_override_files: bool) -> (plan: FileRestorePlan)
    ensures
        existing_matches(existing, size, modified) ==> plan is Skip,
        !existing_matches(existing, size, modified) && existing is Present && no_override_files
            ==> plan is Conflict,
        !existing_matches(existing, size, modified) && existing is Present && !no_override_files
            ==> plan == (FileRestorePlan::Write { create_new: false }),
        existing is Missing ==> plan == (FileRestorePlan::Write { create_new: no_override_files }),
        existing is Present && existing->modified is Some && (existing->size == size
            || existing->modified.unwrap() == modified) ==> plan is Skip,
        existing is Present && existing->modified is Some && existing->size != size
            && existing->modified.unwrap() != modified && no_override_files ==> plan is Conflict,
        existing is Present && existing->modified is None ==> plan !is Skip,
{
    let matches = match existing {
        ExistingTarget::Missing => None,
        ExistingTarget::Present { size: existing_size, modified: existing_modified } => {
            match existing_modified {
                Some(m) => Some(!(existing_size != size && m != modified)),
                None => Some(false),
            }
        },
    };
    match matches {
        Some(true) => FileRestorePlan::Skip,
        Some(false) => {
            if no_override_files {
                FileRestorePlan::Conflict
            } else {
                FileRestorePlan::Write { create_new: false }
            }
        },
        None => FileRestorePlan::Write { create_new: no_override_files },
    }
}

/// An existing file matches the backed-up one exactly when its modification
/// time could be read and at least one of its size and its modification time
/// agrees; nothing missing ever matches.
pub proof fn lemma_existing_file_matches(
    existing_size: u64,
    existing_modified: Option<i64>,
    size: u64,
    modified: i64,
)
    ensures
        existing_matches(
            ExistingTarget::Present { size: existing_size, modified: existing_modified },
            size,
            modified,
        ) == (existing_modified is Some && (existing_size == size || existing_modified.unwrap()
            == modified)),
        !existing_matches(ExistingTarget::Missing, size, modified),
{
}

/// What is at the place a directory is restored to.
pub enum DirTarget {
    Directory,
    NotDirectory,
    Missing,
    /// Its metadata could not be read for another reason.
    Unreadable,
}

/// What restoring a directory does first.
pub enum DirRestorePlan {
    /// Restore into the existing directory.
    UseExisting,
    /// Create the directory, then restore into it.
    Create,
    /// Refuse: something that is not a directory is in the way.
    Conflict,
    /// Report that the target could not be examined.
    Fail,
}

/// Decides how to restore a directory given what is at its target.
pub fn plan_dir_restore(target: DirTarget) -> (plan: DirRestorePlan)
    ensures
        target is Directory <==> plan is UseExisting,
        target is Missing <==> plan is Create,
        target is NotDirectory <==> plan is Conflict,
        target is Unreadable <==> plan is Fail,
{
    match target {
        DirTarget::Directory => DirRestorePlan::UseExisting,
        DirTarget::NotDirectory => DirRestorePlan::Conflict,
        DirTarget::Missing => DirRestorePlan::Create,
        DirTarget::Unreadable => DirRestorePlan::Fail,
    }
}

/// The error for a sub-directory entry that holds no content, at the given
/// restore path: the backup data is corrupt.
pub fn missing_content_error(path: &str) -> (e: CommandError)
    ensures
        e.error_kind() == CommandErrorKind::Corrupt,
        e.error_message() == "Sub dir entry without content "@ + path@,
        e.error_source() is None,
{
    let mut message = "Sub dir entry without content ".to_owned();
    message.append(path);
    CommandError::new(CommandErrorKind::Corrupt, message)
}

/// The error for a snapshot that could not be read: a user error when it
/// does not exist, otherwise a system error caused by the failure.
pub fn snapshot_read_error(snapshot_name: &str, not_found: bool, cause: ErrorSource) -> (e: CommandError)
    ensures
        not_found ==> e.error_kind() == CommandErrorKind::User && e.error_message()
            == "Snapshot not found "@ + snapshot_name@ && e.error_source() is None,
        !not_found ==> e.error_kind() == CommandErrorKind::System && e.error_message()
            == "Failed to download snapshot"@ && e.error_source() == Some(cause),
{
    if not_found {
        let mut message = "Snapshot not found ".to_owned();
        message.append(snapshot_name);
        CommandError::new(CommandErrorKind::User, message)
    } else {
        CommandError::with_source(CommandErrorKind::System, "Failed to download snapshot".to_owned(), cause)
    }
}

} // verus!
