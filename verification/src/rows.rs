//! Which rows a run leaves: one for every eligible entry that could be
//! hashed, none for anything else, and the same rows whenever the same
//! tree is walked again.

use crate::hasher::{fingerprint, xxh64, FINGERPRINT_SEED};
use crate::hex::{hex16, is_fingerprint_text, lemma_hex16_is_fingerprint_text};
use crate::run::{lemma_whole_run, rows_for, rows_of_run};
use crate::stager::RowView;
use crate::walk::{eligible_entries, eligible_pred, is_eligible, EntryView};
use vstd::prelude::*;
use vstd::seq_lib::{
    lemma_multiset_commutative, to_multiset_build, to_multiset_contains, to_multiset_len,
    to_multiset_remove,
};

verus! {

/// Whether every file was hashed.
pub open spec fn all_hashed(outcomes: Seq<Option<u64>>) -> bool {
    forall|i: int| 0 <= i < outcomes.len() ==> (#[trigger] outcomes[i]) is Some
}

/// Whether no two entries have the same path.
pub open spec fn paths_are_distinct(entries: Seq<EntryView>) -> bool {
    forall|a: int, b: int|
        0 <= a < b < entries.len() ==> (#[trigger] entries[a]).path != (#[trigger] entries[b]).path
}

/// Where every file was hashed, the rows stand one for one beside the
/// files: row `i` holds the text of the fingerprint of file `i`, and its
/// path.
pub proof fn lemma_rows_when_all_hashed(paths: Seq<EntryView>, outcomes: Seq<Option<u64>>)
    requires
        outcomes.len() <= paths.len(),
        all_hashed(outcomes),
    ensures
        rows_for(paths, outcomes).len() == outcomes.len(),
        forall|i: int|
            0 <= i < outcomes.len() ==> #[trigger] rows_for(paths, outcomes)[i] == (
                hex16(outcomes[i]->0),
                paths[i].path,
            ),
    decreases outcomes.len(),
{
    if outcomes.len() > 0 {
        let shorter = outcomes.drop_last();
        assert(all_hashed(shorter)) by {
            assert forall|i: int| 0 <= i < shorter.len() implies (
            #[trigger] shorter[i]) is Some by {
                assert(outcomes[i] is Some);
            }
        }
        lemma_rows_when_all_hashed(paths, shorter);
        assert(outcomes.last() is Some);
        assert forall|i: int| 0 <= i < outcomes.len() implies #[trigger] rows_for(
            paths,
            outcomes,
        )[i] == (hex16(outcomes[i]->0), paths[i].path) by {
            if i < shorter.len() {
                assert(rows_for(paths, shorter)[i] == (hex16(shorter[i]->0), paths[i].path));
            }
        }
    }
}

/// Whether `row` is the row of one of the files that were hashed: it holds
/// that file's path and the text of the fingerprint that hashing gave.
pub open spec fn comes_from_a_file(
    row: RowView,
    paths: Seq<EntryView>,
    outcomes: Seq<Option<u64>>,
) -> bool {
    exists|i: int|
        0 <= i < outcomes.len() && (#[trigger] outcomes[i]) is Some && row == (
            hex16(outcomes[i]->0),
            paths[i].path,
        )
}

/// Every row comes from a file that was hashed.
pub proof fn lemma_rows_come_from_files(paths: Seq<EntryView>, outcomes: Seq<Option<u64>>)
    requires
        outcomes.len() <= paths.len(),
    ensures
        forall|j: int|
            0 <= j < rows_for(paths, outcomes).len() ==> comes_from_a_file(
                #[trigger] rows_for(paths, outcomes)[j],
                paths,
                outcomes,
            ),
    decreases outcomes.len(),
{
    let rows = rows_for(paths, outcomes);
    if outcomes.len() > 0 {
        let shorter = outcomes.drop_last();
        let earlier = rows_for(paths, shorter);
        lemma_rows_come_from_files(paths, shorter);
        assert forall|j: int| 0 <= j < rows.len() implies comes_from_a_file(
            #[trigger] rows[j],
            paths,
            outcomes,
        ) by {
            if j < earlier.len() {
                assert(comes_from_a_file(earlier[j], paths, shorter));
                let i = choose|i: int|
                    0 <= i < shorter.len() && (#[trigger] shorter[i]) is Some && earlier[j] == (
                        hex16(shorter[i]->0),
                        paths[i].path,
                    );
                assert(outcomes[i] is Some && rows[j] == (hex16(outcomes[i]->0), paths[i].path));
            } else {
                let i = outcomes.len() - 1;
                assert(outcomes[i] is Some && rows[j] == (hex16(outcomes[i]->0), paths[i].path));
            }
        }
    }
}

/// Among entries with distinct paths, the eligible ones have distinct
/// paths too.
pub proof fn lemma_eligible_paths_are_distinct(entries: Seq<EntryView>)
    requires
        paths_are_distinct(entries),
    ensures
        paths_are_distinct(eligible_entries(entries)),
    decreases entries.len(),
{
    if entries.len() == 0 {
        entries.lemma_filter_len(eligible_pred());
    } else {
        let shorter = entries.drop_last();
        let last = entries.last();
        assert(paths_are_distinct(shorter)) by {
            assert forall|a: int, b: int| 0 <= a < b < shorter.len() implies (
            #[trigger] shorter[a]).path != (#[trigger] shorter[b]).path by {
                assert(entries[a].path != entries[b].path);
            }
        }
        lemma_eligible_paths_are_distinct(shorter);
        assert(entries =~= shorter.push(last));
        shorter.lemma_filter_push(last, eligible_pred());
        let kept = eligible_entries(shorter);
        if is_eligible(last) {
            assert forall|a: int, b: int| 0 <= a < b < kept.len() + 1 implies (#[trigger] kept.push(
                last,
            )[a]).path != (#[trigger] kept.push(last)[b]).path by {
                if b == kept.len() {
                    assert(kept.contains(kept[a]));
                    shorter.lemma_filter_contains_rev(eligible_pred(), kept[a]);
                    let m = choose|m: int| 0 <= m < shorter.len() && shorter[m] == kept[a];
                    assert(entries[m].path != entries[entries.len() - 1].path);
                } else {
                    assert(kept[a].path != kept[b].path);
                }
            }
        }
    }
}

/// Where every file was hashed, every eligible entry of the walk
/// has a row with its path among the rows of the run. Where the walk emits
/// every path once, it is the only row with that path.
pub proof fn lemma_coverage(entries: Seq<EntryView>, outcomes: Seq<Option<u64>>, k: int)
    requires
        outcomes.len() == eligible_entries(entries).len(),
        all_hashed(outcomes),
        0 <= k < entries.len(),
        is_eligible(entries[k]),
    ensures
        ({
            let rows = rows_of_run(entries, outcomes);
            &&& exists|j: int| 0 <= j < rows.len() && (#[trigger] rows[j]).1 == entries[k].path
            &&& paths_are_distinct(entries) ==> forall|j: int, l: int|
                0 <= j < rows.len() && 0 <= l < rows.len() && (#[trigger] rows[j]).1
                    == entries[k].path && (#[trigger] rows[l]).1 == entries[k].path ==> j == l
        }),
{
    let files = eligible_entries(entries);
    let rows = rows_of_run(entries, outcomes);
    lemma_whole_run(entries, outcomes);
    assert(rows == rows_for(files, outcomes));
    lemma_rows_when_all_hashed(files, outcomes);
    entries.lemma_filter_contains(eligible_pred(), k);
    let j = choose|j: int| 0 <= j < files.len() && files[j] == entries[k];
    assert(rows[j].1 == entries[k].path);
    if paths_are_distinct(entries) {
        lemma_eligible_paths_are_distinct(entries);
        assert forall|a: int, b: int|
            0 <= a < rows.len() && 0 <= b < rows.len() && (#[trigger] rows[a]).1 == entries[k].path
                && (#[trigger] rows[b]).1 == entries[k].path implies a == b by {
            assert(files[a].path == files[b].path);
            if a < b {
                assert(files[a].path != files[b].path);
            }
            if b < a {
                assert(files[b].path != files[a].path);
            }
        }
    }
}

/// Whether `row` holds the path of an eligible entry of the walk: a regular
/// file that is not empty.
pub open spec fn refers_to_eligible_entry(row: RowView, entries: Seq<EntryView>) -> bool {
    exists|m: int|
        0 <= m < entries.len() && is_eligible(#[trigger] entries[m]) && row.1 == entries[m].path
}

/// Every row of a run holds the path of an eligible entry of the walk.
pub proof fn lemma_rows_refer_to_eligible_entries(
    entries: Seq<EntryView>,
    outcomes: Seq<Option<u64>>,
)
    requires
        outcomes.len() == eligible_entries(entries).len(),
    ensures
        forall|j: int|
            0 <= j < rows_of_run(entries, outcomes).len() ==> refers_to_eligible_entry(
                #[trigger] rows_of_run(entries, outcomes)[j],
                entries,
            ),
{
    let files = eligible_entries(entries);
    let rows = rows_of_run(entries, outcomes);
    lemma_whole_run(entries, outcomes);
    assert(rows == rows_for(files, outcomes));
    lemma_rows_come_from_files(files, outcomes);
    assert forall|j: int| 0 <= j < rows.len() implies refers_to_eligible_entry(
        #[trigger] rows[j],
        entries,
    ) by {
        assert(comes_from_a_file(rows[j], files, outcomes));
        let i = choose|i: int|
            0 <= i < outcomes.len() && (#[trigger] outcomes[i]) is Some && rows[j] == (
                hex16(outcomes[i]->0),
                files[i].path,
            );
        entries.lemma_filter_pred(eligible_pred(), i);
        assert(files.contains(files[i]));
        entries.lemma_filter_contains_rev(eligible_pred(), files[i]);
        let m = choose|m: int| 0 <= m < entries.len() && entries[m] == files[i];
        assert(is_eligible(entries[m]) && rows[j].1 == entries[m].path);
    }
}

/// Where the walk emits every path once, an entry that is not
/// eligible (a special file, a symbolic link, a directory, an empty file)
/// has no row among the rows of the run.
pub proof fn lemma_exclusion(entries: Seq<EntryView>, outcomes: Seq<Option<u64>>, k: int)
    requires
        outcomes.len() == eligible_entries(entries).len(),
        paths_are_distinct(entries),
        0 <= k < entries.len(),
        !is_eligible(entries[k]),
    ensures
        forall|j: int|
            0 <= j < rows_of_run(entries, outcomes).len() ==> (#[trigger] rows_of_run(
                entries,
                outcomes,
            )[j]).1 != entries[k].path,
{
    let rows = rows_of_run(entries, outcomes);
    lemma_rows_refer_to_eligible_entries(entries, outcomes);
    assert forall|j: int| 0 <= j < rows.len() implies (#[trigger] rows[j]).1
        != entries[k].path by {
        assert(refers_to_eligible_entry(rows[j], entries));
        let m = choose|m: int|
            0 <= m < entries.len() && is_eligible(#[trigger] entries[m]) && rows[j].1
                == entries[m].path;
        if m < k {
            assert(entries[m].path != entries[k].path);
        }
        if k < m {
            assert(entries[k].path != entries[m].path);
        }
    }
}

/// The row of an entry in a tree whose files hold `content`: the text of
/// the fingerprint of what the file holds, and the path.
pub open spec fn row_of(content: Map<Seq<char>, Seq<u8>>) -> spec_fn(EntryView) -> RowView {
    |entry: EntryView| (hex16(fingerprint(content[entry.path])), entry.path)
}

/// The outcomes of hashing `paths` in a tree whose files hold `content`,
/// where every file can be read.
pub open spec fn read_all(paths: Seq<EntryView>, content: Map<Seq<char>, Seq<u8>>) -> Seq<
    Option<u64>,
> {
    paths.map_values(|entry: EntryView| Some(fingerprint(content[entry.path])))
}

/// The rows that a walk of `entries` gives in a tree whose files hold
/// `content`.
pub open spec fn rows_of_tree(entries: Seq<EntryView>, content: Map<Seq<char>, Seq<u8>>) -> Seq<
    RowView,
> {
    eligible_entries(entries).map_values(row_of(content))
}

/// Where every file can be read, the rows of a run are the rows of the
/// tree: each fingerprint is that of the file's content.
pub proof fn lemma_rows_of_readable_tree(entries: Seq<EntryView>, content: Map<Seq<char>, Seq<u8>>)
    ensures
        rows_of_run(entries, read_all(eligible_entries(entries), content)) == rows_of_tree(
            entries,
            content,
        ),
{
    let files = eligible_entries(entries);
    let outcomes = read_all(files, content);
    lemma_whole_run(entries, outcomes);
    lemma_rows_when_all_hashed(files, outcomes);
    assert(rows_for(files, outcomes) =~= rows_of_tree(entries, content));
}

/// In the row of a file, the fingerprint is the
/// sixteen-digit text of the XXH64 digest, under seed 0, of what the file
/// holds.
pub proof fn lemma_fingerprint_field(
    entries: Seq<EntryView>,
    content: Map<Seq<char>, Seq<u8>>,
    i: int,
)
    requires
        0 <= i < eligible_entries(entries).len(),
    ensures
        rows_of_tree(entries, content)[i].0 == hex16(
            xxh64(FINGERPRINT_SEED, content[eligible_entries(entries)[i].path]),
        ),
        rows_of_tree(entries, content)[i].1 == eligible_entries(entries)[i].path,
        is_fingerprint_text(rows_of_tree(entries, content)[i].0),
{
    lemma_hex16_is_fingerprint_text(fingerprint(content[eligible_entries(entries)[i].path]));
}

/// Two files that hold the same bytes have the same
/// fingerprint in their rows, whatever their paths and whichever the run.
pub proof fn lemma_same_content_same_fingerprint(
    first: EntryView,
    second: EntryView,
    content: Map<Seq<char>, Seq<u8>>,
    later_content: Map<Seq<char>, Seq<u8>>,
)
    requires
        content[first.path] == later_content[second.path],
    ensures
        row_of(content)(first).0 == row_of(later_content)(second).0,
{
}

/// The rows of two walks, one after the other, are the rows of the first
/// followed by the rows of the second.
pub proof fn lemma_rows_of_tree_add(
    first: Seq<EntryView>,
    second: Seq<EntryView>,
    content: Map<Seq<char>, Seq<u8>>,
)
    ensures
        rows_of_tree(first + second, content) == rows_of_tree(first, content) + rows_of_tree(
            second,
            content,
        ),
{
    Seq::filter_distributes_over_add(first, second, eligible_pred());
    assert(rows_of_tree(first + second, content) =~= rows_of_tree(first, content) + rows_of_tree(
        second,
        content,
    ));
}

/// Two walks that emit the same entries, in whatever order, over a tree
/// that has not changed, give the same rows of the tree as multisets.
pub proof fn lemma_rows_of_tree_permuted(
    first: Seq<EntryView>,
    second: Seq<EntryView>,
    content: Map<Seq<char>, Seq<u8>>,
)
    requires
        first.to_multiset() == second.to_multiset(),
    ensures
        rows_of_tree(first, content).to_multiset() == rows_of_tree(second, content).to_multiset(),
    decreases first.len(),
{
    broadcast use vstd::multiset::group_multiset_axioms;

    to_multiset_len(first);
    to_multiset_len(second);
    if first.len() == 0 {
        assert(first =~= second);
    } else {
        let last = first.last();
        let shorter = first.drop_last();
        assert(first =~= shorter.push(last));
        to_multiset_build(shorter, last);
        to_multiset_contains(second, last);
        assert(second.to_multiset().count(last) > 0);
        let k = choose|k: int| 0 <= k < second.len() && second[k] == last;
        let without = second.remove(k);
        to_multiset_remove(second, k);
        assert(shorter.to_multiset() =~= without.to_multiset());
        lemma_rows_of_tree_permuted(shorter, without, content);

        let one = seq![last];
        let head = second.subrange(0, k);
        let tail = second.subrange(k + 1, second.len() as int);
        assert(first =~= shorter + one);
        assert(second =~= head + one + tail);
        assert(without =~= head + tail);
        lemma_rows_of_tree_add(shorter, one, content);
        lemma_rows_of_tree_add(head, one, content);
        lemma_rows_of_tree_add(head + one, tail, content);
        lemma_rows_of_tree_add(head, tail, content);
        let rows_one = rows_of_tree(one, content);
        let rows_head = rows_of_tree(head, content);
        let rows_tail = rows_of_tree(tail, content);
        let rows_shorter = rows_of_tree(shorter, content);
        lemma_multiset_commutative(rows_shorter, rows_one);
        lemma_multiset_commutative(rows_head, rows_one);
        lemma_multiset_commutative(rows_head + rows_one, rows_tail);
        lemma_multiset_commutative(rows_head, rows_tail);
        assert(rows_of_tree(first, content).to_multiset() =~= rows_of_tree(
            second,
            content,
        ).to_multiset());
    }
}

/// Two runs over a tree that has not changed, whose walks emit
/// the same entries in whatever order and whose files can all be read, leave
/// the same rows as multisets.
pub proof fn lemma_rerun_gives_same_rows(
    first: Seq<EntryView>,
    second: Seq<EntryView>,
    content: Map<Seq<char>, Seq<u8>>,
)
    requires
        first.to_multiset() == second.to_multiset(),
    ensures
        rows_of_run(first, read_all(eligible_entries(first), content)).to_multiset()
            == rows_of_run(second, read_all(eligible_entries(second), content)).to_multiset(),
{
    lemma_rows_of_readable_tree(first, content);
    lemma_rows_of_readable_tree(second, content);
    lemma_rows_of_tree_permuted(first, second, content);
}

} // verus!
