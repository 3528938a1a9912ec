use fast_file_tracker::filter::{keep_entry, EntryKind};
use fast_file_tracker::walk::WalkEntry;

fn entry(kind: EntryKind, size: u64) -> WalkEntry {
    WalkEntry { path: "p".to_string(), kind, size }
}

#[test]
fn regular_files_and_directories_are_kept() {
    assert!(keep_entry(EntryKind::RegularFile));
    assert!(keep_entry(EntryKind::Directory));
}

#[test]
fn special_files_and_links_are_dropped() {
    assert!(!keep_entry(EntryKind::BlockDevice));
    assert!(!keep_entry(EntryKind::CharDevice));
    assert!(!keep_entry(EntryKind::Socket));
    assert!(!keep_entry(EntryKind::Fifo));
    assert!(!keep_entry(EntryKind::Symlink));
}

#[test]
fn only_regular_files_with_bytes_are_hashed() {
    assert!(entry(EntryKind::RegularFile, 1).eligible());
    assert!(entry(EntryKind::RegularFile, u64::MAX).eligible());
    assert!(!entry(EntryKind::RegularFile, 0).eligible());
    assert!(!entry(EntryKind::Directory, 4096).eligible());
    assert!(!entry(EntryKind::Directory, 0).eligible());
    assert!(!entry(EntryKind::Symlink, 5).eligible());
    assert!(!entry(EntryKind::Fifo, 5).eligible());
    assert!(!entry(EntryKind::Socket, 5).eligible());
    assert!(!entry(EntryKind::BlockDevice, 5).eligible());
    assert!(!entry(EntryKind::CharDevice, 5).eligible());
}
