use freebck::cmd::backup::{
    assemble_dir_entry, find_last_named, previous_sub_dir, PreviousSubDir, get_highest_snapshot_number, next_snapshot_step,
    reusable_chunk_hashes, sort_by_name, unchanged_file_entry, SnapshotStep, SnapshotWrite,
    SubDirTaskResult, MAX_LOOP_ITERATIONS,
};
use freebck::cmd::common::{
    next_snapshot_key, numbered_snapshot_key, snapshot_key, CommandError, CommandErrorKind, ErrorSource,
    IntoCommandError, IntoCommandResult, KeepGoingOrErr,
};
use freebck::cmd::restore::{
    missing_content_error, is_latest, restore_snapshot_key, plan_dir_restore, plan_file_restore, snapshot_read_error, DirRestorePlan, DirTarget,
    ExistingTarget, FileRestorePlan,
};
use freebck::data::backup::{sub_dir_entry::Content, FileEntry, SubDirEntry};
use freebck::data::config::default_path;

fn file(name: &str, size: u64) -> FileEntry {
    FileEntry {
        name: name.to_string(),
        content_hash: format!("hash-{}", name),
        chunk_hash: vec![format!("chunk-{}", name)],
        size,
        modified: 1000,
    }
}

fn names(v: &[String]) -> Vec<String> {
    v.to_vec()
}

#[test]
fn highest_snapshot_number_of_an_archive() {
    let stored = names(&[
        "docs/3".to_string(),
        "docs/12".to_string(),
        "photos/99".to_string(),
        "docs/x".to_string(),
        "docs/7/extra".to_string(),
        "docs/+5".to_string(),
        "docs".to_string(),
    ]);
    assert_eq!(get_highest_snapshot_number(&stored, "docs"), 12);
    assert_eq!(get_highest_snapshot_number(&stored, "photos"), 99);
    assert_eq!(get_highest_snapshot_number(&stored, "music"), 0);
    assert_eq!(get_highest_snapshot_number(&Vec::new(), "docs"), 0);
}

#[test]
fn next_snapshot_key_becomes_the_highest() {
    let mut stored = names(&["docs/3".to_string(), "docs/12".to_string()]);
    let highest = get_highest_snapshot_number(&stored, "docs");
    let key = numbered_snapshot_key("docs", highest + 1);
    assert_eq!(key, "docs/13");
    stored.push(key);
    assert_eq!(get_highest_snapshot_number(&stored, "docs"), 13);
}

#[test]
fn snapshot_keys_join_with_a_slash() {
    assert_eq!(snapshot_key("docs", "latest"), "docs/latest");
    assert_eq!(numbered_snapshot_key("docs", 0), "docs/0");
}

#[test]
fn snapshot_steps() {
    assert!(matches!(next_snapshot_step(0, SnapshotWrite::Written), SnapshotStep::Done));
    assert!(matches!(next_snapshot_step(0, SnapshotWrite::Failed), SnapshotStep::Fail));
    assert!(matches!(next_snapshot_step(0, SnapshotWrite::AlreadyExists), SnapshotStep::Retry));
    assert!(matches!(
        next_snapshot_step(MAX_LOOP_ITERATIONS - 1, SnapshotWrite::AlreadyExists),
        SnapshotStep::GiveUp
    ));
}

#[test]
fn sort_by_name_orders_bytewise() {
    let sorted = sort_by_name(vec![file("b", 1), file("B", 2), file("a", 3), file("ab", 4)]);
    let order: Vec<&str> = sorted.iter().map(|f| f.name.as_str()).collect();
    assert_eq!(order, ["B", "a", "ab", "b"]);
}

#[test]
fn assemble_dir_entry_sorts_and_sums() {
    let sub = |name: &str, size: u64| SubDirTaskResult {
        sub_dir: SubDirEntry { name: name.to_string(), content: Some(Content::Hash("h".to_string())) },
        size,
    };
    let entry = assemble_dir_entry(
        vec![sub("zeta", 10), sub("alpha", 20)],
        vec![file("y", 1), file("x", 2)],
    );
    assert_eq!(entry.size, 33);
    let dirs: Vec<&str> = entry.sub_dir.iter().map(|d| d.name.as_str()).collect();
    let files: Vec<&str> = entry.file.iter().map(|f| f.name.as_str()).collect();
    assert_eq!(dirs, ["alpha", "zeta"]);
    assert_eq!(files, ["x", "y"]);
}

#[test]
fn find_last_named_takes_the_last_of_a_name() {
    let mut second = file("a", 2);
    second.modified = 7;
    let entries = vec![file("a", 1), file("b", 5), second];
    let found = find_last_named(&entries, "a").unwrap();
    assert_eq!(found.size, 2);
    assert_eq!(found.modified, 7);
    assert!(find_last_named(&entries, "c").is_none());
}

#[test]
fn unchanged_file_entries_are_reused() {
    let previous = file("a", 5);
    let reused = unchanged_file_entry(Some(&previous), 1000, 5).unwrap();
    assert_eq!(reused.name, "a");
    assert_eq!(reused.chunk_hash, vec!["chunk-a".to_string()]);
    assert!(unchanged_file_entry(Some(&previous), 1001, 5).is_none());
    assert!(unchanged_file_entry(Some(&previous), 1000, 6).is_none());
    assert!(unchanged_file_entry(None, 1000, 5).is_none());
}

#[test]
fn chunks_are_reused_for_equal_content() {
    let previous = file("a", 5);
    assert_eq!(
        reusable_chunk_hashes(Some(&previous), &"hash-a".to_string()),
        Some(vec!["chunk-a".to_string()])
    );
    assert_eq!(reusable_chunk_hashes(Some(&previous), &"other".to_string()), None);
    assert_eq!(reusable_chunk_hashes(None, &"hash-a".to_string()), None);
}

#[test]
fn file_restore_plans() {
    let present = |size, modified| ExistingTarget::Present { size, modified };
    assert!(matches!(plan_file_restore(present(5, Some(1)), 5, 1, true), FileRestorePlan::Skip));
    // only one of size and time differs: taken as matching
    assert!(matches!(plan_file_restore(present(6, Some(1)), 5, 1, true), FileRestorePlan::Skip));
    assert!(matches!(plan_file_restore(present(6, Some(2)), 5, 1, true), FileRestorePlan::Conflict));
    assert!(matches!(
        plan_file_restore(present(6, Some(2)), 5, 1, false),
        FileRestorePlan::Write { create_new: false }
    ));
    assert!(matches!(plan_file_restore(present(5, None), 5, 1, true), FileRestorePlan::Conflict));
    assert!(matches!(
        plan_file_restore(ExistingTarget::Missing, 5, 1, true),
        FileRestorePlan::Write { create_new: true }
    ));
    assert!(matches!(
        plan_file_restore(ExistingTarget::Missing, 5, 1, false),
        FileRestorePlan::Write { create_new: false }
    ));
}

#[test]
fn dir_restore_plans() {
    assert!(matches!(plan_dir_restore(DirTarget::Directory), DirRestorePlan::UseExisting));
    assert!(matches!(plan_dir_restore(DirTarget::Missing), DirRestorePlan::Create));
    assert!(matches!(plan_dir_restore(DirTarget::NotDirectory), DirRestorePlan::Conflict));
    assert!(matches!(plan_dir_restore(DirTarget::Unreadable), DirRestorePlan::Fail));
}

#[test]
fn snapshot_read_errors() {
    let missing = snapshot_read_error("docs/4", true, ErrorSource::Other("gone".to_string()));
    assert_eq!(missing.kind(), CommandErrorKind::User);
    assert_eq!(missing.message(), "Snapshot not found docs/4");
    assert!(missing.source().is_none());
    let failed = snapshot_read_error("docs/4", false, ErrorSource::Other("disk".to_string()));
    assert_eq!(failed.kind(), CommandErrorKind::System);
    assert_eq!(failed.message(), "Failed to download snapshot");
    assert!(matches!(failed.source(), Some(ErrorSource::Other(s)) if s == "disk"));
}

#[test]
fn with_message_wraps_the_error() {
    let inner = CommandError::new(CommandErrorKind::Corrupt, "bad chunk".to_string());
    let outer = inner.with_message("Failed to restore file x".to_string());
    assert_eq!(outer.kind(), CommandErrorKind::Corrupt);
    assert_eq!(outer.message(), "Failed to restore file x");
    match outer.source() {
        Some(ErrorSource::Command(cause)) => {
            assert_eq!(cause.message(), "bad chunk");
            assert!(cause.source().is_none());
        }
        _ => panic!("expected the wrapped error as the cause"),
    }
}

#[test]
fn with_source_keeps_the_cause() {
    let e = CommandError::with_source(
        CommandErrorKind::System,
        "Failed".to_string(),
        ErrorSource::Other("io".to_string()),
    );
    assert_eq!(e.kind(), CommandErrorKind::System);
    assert!(matches!(e.source(), Some(ErrorSource::Other(s)) if s == "io"));
}

#[test]
fn into_command_results() {
    let ok: Result<u32, ErrorSource> = Ok(3);
    assert_eq!(ok.into_command_result(CommandErrorKind::System, "m").ok(), Some(3));
    let err: Result<u32, ErrorSource> = Err(ErrorSource::Other("cause".to_string()));
    let e = err.into_command_result(CommandErrorKind::Corrupt, "Failed to decode").unwrap_err();
    assert_eq!(e.kind(), CommandErrorKind::Corrupt);
    assert_eq!(e.message(), "Failed to decode");
    assert!(matches!(e.source(), Some(ErrorSource::Other(s)) if s == "cause"));
    let e = CommandError::new(CommandErrorKind::User, "inner".to_string())
        .into_command_error(CommandErrorKind::System, "outer");
    assert_eq!(e.kind(), CommandErrorKind::System);
    assert!(matches!(e.source(), Some(ErrorSource::Command(c)) if c.message() == "inner"));
}

#[test]
fn keep_going_or_err_decides() {
    let ok: Result<(), String> = Ok(());
    let (res, report) = ok.keep_going_or_err(false, |_| CommandError::new(CommandErrorKind::User, "x".to_string()));
    assert!(res.is_ok() && report.is_none());

    let failed: Result<(), String> = Err("boom".to_string());
    let (res, report) = failed.keep_going_or_err(true, |e| CommandError::new(CommandErrorKind::Corrupt, e));
    assert!(res.is_ok());
    assert_eq!(report.unwrap().message(), "boom");

    let failed: Result<(), String> = Err("boom".to_string());
    let (res, report) = failed.keep_going_or_err(false, |e| CommandError::new(CommandErrorKind::Corrupt, e));
    let e = res.unwrap_err();
    assert_eq!(e.kind(), CommandErrorKind::Program);
    assert_eq!(e.message(), "Aborted");
    assert_eq!(report.unwrap().message(), "boom");
}

#[test]
fn default_backup_path_is_parent() {
    assert_eq!(default_path(), "..");
}

#[test]
fn latest_names_the_highest_snapshot() {
    assert!(is_latest("latest"));
    assert!(!is_latest("Latest"));
    assert!(!is_latest("3"));
    assert_eq!(restore_snapshot_key("docs", "latest", 7), "docs/7");
    assert_eq!(restore_snapshot_key("docs", "3", 7), "docs/3");
}

#[test]
fn sort_by_name_keeps_equal_names_in_order() {
    let mut first = file("a", 1);
    first.modified = 1;
    let mut second = file("a", 2);
    second.modified = 2;
    let sorted = sort_by_name(vec![file("b", 9), first, second]);
    let order: Vec<(String, i64)> = sorted.iter().map(|f| (f.name.clone(), f.modified)).collect();
    assert_eq!(order, [("a".to_string(), 1), ("a".to_string(), 2), ("b".to_string(), 1000)]);
}

#[test]
fn next_snapshot_key_is_one_above() {
    assert_eq!(next_snapshot_key("docs", 0), "docs/1");
    assert_eq!(next_snapshot_key("docs", 41), "docs/42");
}

#[test]
fn previous_sub_dirs() {
    let inline = SubDirEntry {
        name: "d".to_string(),
        content: Some(Content::Inline(freebck::data::backup::DirEntry {
            sub_dir: vec![],
            file: vec![file("x", 4)],
            size: 4,
        })),
    };
    assert!(matches!(previous_sub_dir(Some(&inline)), PreviousSubDir::Inline(d) if d.size == 4));
    let stored = SubDirEntry { name: "d".to_string(), content: Some(Content::Hash("h1".to_string())) };
    assert!(matches!(previous_sub_dir(Some(&stored)), PreviousSubDir::Stored(h) if h == "h1"));
    let empty = SubDirEntry { name: "d".to_string(), content: None };
    assert!(matches!(previous_sub_dir(Some(&empty)), PreviousSubDir::Absent));
    assert!(matches!(previous_sub_dir(None), PreviousSubDir::Absent));
}

#[test]
fn missing_content_is_corrupt() {
    let e = missing_content_error("/restore/d");
    assert_eq!(e.kind(), CommandErrorKind::Corrupt);
    assert_eq!(e.message(), "Sub dir entry without content /restore/d");
    assert!(e.source().is_none());
}
