//! The per-entry predicate that decides which directory entries a walk keeps.

use vstd::prelude::*;

verus! {

/// What kind of filesystem object a directory entry is, as its file-type
/// metadata reports it without following links.
#[derive(Clone, Copy, Debug, PartialEq, Eq, Structural)]
pub enum EntryKind {
    RegularFile,
    Directory,
    BlockDevice,
    CharDevice,
    Socket,
    Fifo,
    Symlink,
}

/// Whether a kind is one of the special files or a symbolic link.
pub open spec fn is_special(kind: EntryKind) -> bool {
    ||| kind == EntryKind::BlockDevice
    ||| kind == EntryKind::CharDevice
    ||| kind == EntryKind::Socket
    ||| kind == EntryKind::Fifo
    ||| kind == EntryKind::Symlink
}

/// A kind is kept when it is a regular file or a directory, and none of the
/// special files nor a symbolic link. Links are never followed: they are
/// dropped whatever they point to.
pub open spec fn is_kept(kind: EntryKind) -> bool {
    (kind == EntryKind::RegularFile || kind == EntryKind::Directory) && !is_special(kind)
}

/// Decides whether a walk keeps an entry of the given kind.
pub fn keep_entry(kind: EntryKind) -> (kept: bool)
    ensures
        kept == is_kept(kind),
{
    match kind {
        EntryKind::RegularFile | EntryKind::Directory => true,
        EntryKind::BlockDevice
        | EntryKind::CharDevice
        | EntryKind::Socket
        | EntryKind::Fifo
        | EntryKind::Symlink => false,
    }
}

} // verus!
