use fast_file_tracker::error::PipelineError;

#[test]
fn unreadable_entries_and_files_do_not_end_the_run() {
    assert!(!PipelineError::WalkEntryFailed.fatal());
    assert!(!PipelineError::HashIoFailed.fatal());
}

#[test]
fn everything_else_ends_the_run() {
    assert!(PipelineError::BadRoot.fatal());
    assert!(PipelineError::StoreInsertFailed.fatal());
    assert!(PipelineError::SnapshotFailed.fatal());
}
