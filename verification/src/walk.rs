//! What a walk emits, and which of it is hashed.

use crate::filter::{is_kept, EntryKind};
use vstd::prelude::*;

verus! {

/// One entry that a walk emits: where it is, what it is, and how many bytes
/// it holds.
#[derive(Debug)]
pub struct WalkEntry {
    pub path: String,
    pub kind: EntryKind,
    pub size: u64,
}

/// The mathematical content of a `WalkEntry`.
pub struct EntryView {
    pub path: Seq<char>,
    pub kind: EntryKind,
    pub size: nat,
}

impl View for WalkEntry {
    type V = EntryView;

    open spec fn view(&self) -> EntryView {
        EntryView { path: self.path@, kind: self.kind, size: self.size as nat }
    }
}

/// An entry is hashed when it is a regular file that holds at least one
/// byte. Directories, empty files, special files and symbolic links are not.
pub open spec fn is_eligible(entry: EntryView) -> bool {
    entry.kind == EntryKind::RegularFile && entry.size > 0
}

/// `is_eligible`, as a value.
pub open spec fn eligible_pred() -> spec_fn(EntryView) -> bool {
    |entry: EntryView| is_eligible(entry)
}

/// The entries of a walk that are hashed, in the order of the walk.
pub open spec fn eligible_entries(entries: Seq<EntryView>) -> Seq<EntryView> {
    entries.filter(eligible_pred())
}

/// The bytes that a sequence of entries holds in all.
pub open spec fn size_sum(entries: Seq<EntryView>) -> nat
    decreases entries.len(),
{
    if entries.len() == 0 {
        0
    } else {
        size_sum(entries.drop_last()) + entries.last().size
    }
}

impl WalkEntry {
    /// Decides whether this entry is hashed.
    pub fn eligible(&self) -> (yes: bool)
        ensures
            yes == is_eligible(self@),
    {
        self.kind == EntryKind::RegularFile && self.size > 0
    }
}

/// The filter drops nothing that would be hashed: pruning a walk by it
/// loses no row.
pub proof fn lemma_filter_keeps_eligible(entry: EntryView)
    requires
        is_eligible(entry),
    ensures
        is_kept(entry.kind),
{
}

/// One more entry adds its size to the sum.
pub proof fn lemma_size_sum_push(entries: Seq<EntryView>, entry: EntryView)
    ensures
        size_sum(entries.push(entry)) == size_sum(entries) + entry.size,
{
    assert(entries.push(entry).drop_last() =~= entries);
}

/// The sum is the first size plus the sum of the rest.
pub proof fn lemma_size_sum_first(entries: Seq<EntryView>)
    requires
        entries.len() > 0,
    ensures
        size_sum(entries) == entries[0].size + size_sum(entries.skip(1)),
    decreases entries.len(),
{
    if entries.len() == 1 {
        assert(entries.drop_last() =~= Seq::<EntryView>::empty());
        assert(entries.skip(1) =~= Seq::<EntryView>::empty());
    } else {
        lemma_size_sum_first(entries.drop_last());
        assert(entries.drop_last().skip(1) =~= entries.skip(1).drop_last());
    }
}

/// The opposite of `is_eligible`, as a value.
pub open spec fn passed_over_pred() -> spec_fn(EntryView) -> bool {
    |entry: EntryView| !is_eligible(entry)
}

/// The entries of a walk that are passed over, in the order of the walk.
pub open spec fn passed_over_entries(entries: Seq<EntryView>) -> Seq<EntryView> {
    entries.filter(passed_over_pred())
}

/// Every entry of a walk is either hashed or passed over.
pub proof fn lemma_passed_over(entries: Seq<EntryView>)
    ensures
        passed_over_entries(entries).len() + eligible_entries(entries).len() == entries.len(),
    decreases entries.len(),
{
    if entries.len() == 0 {
        entries.lemma_filter_len(passed_over_pred());
        entries.lemma_filter_len(eligible_pred());
    } else {
        let shorter = entries.drop_last();
        let last = entries.last();
        lemma_passed_over(shorter);
        assert(entries =~= shorter.push(last));
        shorter.lemma_filter_push(last, passed_over_pred());
        shorter.lemma_filter_push(last, eligible_pred());
    }
}

} // verus!
