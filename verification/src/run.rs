//! Whole runs: what holds of the state that a sequence of events leaves
//! behind.

use crate::driver::{
    consistent, files_of, initial, lemma_step_keeps_consistent, rank, step, DriverView, Event,
    Phase,
};
use crate::error::is_fatal;
use crate::hex::hex16;
use crate::stager::RowView;
use crate::walk::{
    eligible_entries, eligible_pred, is_eligible, lemma_passed_over, lemma_size_sum_first,
    lemma_size_sum_push, passed_over_entries, size_sum, EntryView,
};
use vstd::prelude::*;

verus! {

/// The state after a sequence of events, taken in order.
pub open spec fn run(state: DriverView, events: Seq<Event>) -> DriverView
    decreases events.len(),
{
    if events.len() == 0 {
        state
    } else {
        step(run(state, events.drop_last()), events.last())
    }
}

/// Whether a run may go from one phase to another in a single step: it
/// stays, it fails, or it moves on to the very next phase.
pub open spec fn follows(before: Phase, after: Phase) -> bool {
    ||| after == before
    ||| after == Phase::Failed
    ||| before == Phase::Init && after == Phase::Walking
    ||| before == Phase::Walking && after == Phase::Hashing
    ||| before == Phase::Hashing && after == Phase::Inserting
    ||| before == Phase::Inserting && after == Phase::Snapshotting
    ||| before == Phase::Snapshotting && after == Phase::Done
}

/// No event makes a run skip a phase.
pub proof fn lemma_no_phase_is_skipped(state: DriverView, event: Event)
    ensures
        follows(state.phase, step(state, event).phase),
{
}

/// A run that is done or has failed stays as it is.
pub proof fn lemma_ended_run_stays(state: DriverView, event: Event)
    requires
        state.phase == Phase::Done || state.phase == Phase::Failed,
    ensures
        step(state, event) == state,
{
}

/// A run fails only for a fatal error, and remembers which.
pub proof fn lemma_failure_is_fatal(state: DriverView, event: Event)
    requires
        state.phase != Phase::Failed,
        step(state, event).phase == Phase::Failed,
    ensures
        step(state, event).failure matches Some(error) && is_fatal(error),
{
}

/// Running a single event is taking one step.
pub proof fn lemma_run_one(state: DriverView, event: Event)
    ensures
        run(state, seq![event]) == step(state, event),
{
    let events = seq![event];
    assert(events.drop_last() =~= Seq::<Event>::empty());
    assert(run(state, Seq::<Event>::empty()) == state);
    assert(run(state, events) == step(run(state, events.drop_last()), events.last()));
}

/// Running two sequences one after the other is running them joined.
pub proof fn lemma_run_add(state: DriverView, first: Seq<Event>, second: Seq<Event>)
    ensures
        run(state, first + second) == run(run(state, first), second),
    decreases second.len(),
{
    if second.len() == 0 {
        assert(first + second =~= first);
    } else {
        lemma_run_add(state, first, second.drop_last());
        assert((first + second).drop_last() =~= first + second.drop_last());
    }
}

/// A run from the start that has not failed has been in every phase up to
/// the one it is in.
pub proof fn lemma_every_phase_was_visited(events: Seq<Event>, phase: Phase)
    requires
        run(initial(), events).phase != Phase::Failed,
        rank(phase) <= rank(run(initial(), events).phase),
    ensures
        exists|n: int|
            0 <= n <= events.len() && (#[trigger] run(initial(), events.take(n))).phase == phase,
    decreases events.len(),
{
    let last_state = run(initial(), events);
    assert(events.take(events.len() as int) =~= events);
    if last_state.phase == phase {
        assert(run(initial(), events.take(events.len() as int)).phase == phase);
    } else {
        // The phase asked for lies before the last one, so there is an earlier state.
        assert(events.len() > 0);
        let shorter = events.drop_last();
        let before = run(initial(), shorter);
        lemma_no_phase_is_skipped(before, events.last());
        lemma_every_phase_was_visited(shorter, phase);
        let n = choose|n: int|
            0 <= n <= shorter.len() && (#[trigger] run(initial(), shorter.take(n))).phase
                == phase;
        assert(shorter.take(n) =~= events.take(n));
        assert(run(initial(), events.take(n)).phase == phase);
    }
}

/// Every state that a run from the start can be in is consistent.
pub proof fn lemma_run_is_consistent(events: Seq<Event>)
    ensures
        consistent(run(initial(), events)),
    decreases events.len(),
{
    if events.len() == 0 {
        assert(initial().paths.skip(0) =~= Seq::<EntryView>::empty());
    } else {
        lemma_run_is_consistent(events.drop_last());
        lemma_step_keeps_consistent(run(initial(), events.drop_last()), events.last());
    }
}

/// Whatever the events were, once a run is inserting, writing its copy or
/// done, `files` is the number of its rows, and every file the walk found
/// has a row or is counted as skipped.
pub proof fn lemma_files_are_rows(events: Seq<Event>)
    requires
        rank(Phase::Inserting) <= rank(run(initial(), events).phase) <= rank(Phase::Done),
    ensures
        files_of(run(initial(), events)) == run(initial(), events).rows.len(),
        run(initial(), events).rows.len() + run(initial(), events).hash_failures == run(
            initial(),
            events,
        ).paths.len(),
{
    lemma_run_is_consistent(events);
}

/// The events of a walk that emits `entries`, in order.
pub open spec fn entry_events(entries: Seq<EntryView>) -> Seq<Event> {
    entries.map_values(|entry: EntryView| Event::Entry { entry })
}

/// What a walk leaves behind: the files to hash are the eligible entries,
/// in the order of the walk; every other entry is counted as passed over;
/// and the bytes counted are those of the eligible entries.
pub proof fn lemma_walk(state: DriverView, entries: Seq<EntryView>)
    requires
        state.phase == Phase::Walking,
    ensures
        run(state, entry_events(entries)) == (DriverView {
            paths: state.paths + eligible_entries(entries),
            skipped: (state.skipped + entries.len() - eligible_entries(entries).len()) as nat,
            total_bytes: state.total_bytes + size_sum(eligible_entries(entries)),
            ..state
        }),
        eligible_entries(entries).len() <= entries.len(),
    decreases entries.len(),
{
    let after = run(state, entry_events(entries));
    if entries.len() == 0 {
        assert(eligible_entries(entries) =~= Seq::<EntryView>::empty()) by {
            reveal(Seq::filter);
        }
        assert(state.paths + eligible_entries(entries) =~= state.paths);
    } else {
        let shorter = entries.drop_last();
        let last = entries.last();
        lemma_walk(state, shorter);
        assert(entry_events(entries).drop_last() =~= entry_events(shorter));
        assert(entries =~= shorter.push(last));
        shorter.lemma_filter_push(last, eligible_pred());
        if is_eligible(last) {
            lemma_size_sum_push(eligible_entries(shorter), last);
            assert(state.paths + eligible_entries(entries) =~= (state.paths + eligible_entries(
                shorter,
            )).push(last));
        }
    }
}

/// The event that tells how hashing one file went: its fingerprint, or
/// nothing where it could not be read.
pub open spec fn hash_event(outcome: Option<u64>) -> Event {
    match outcome {
        Some(fingerprint) => Event::Fingerprint { fingerprint },
        None => Event::HashFailure,
    }
}

/// The events of hashing the first files of a run, one outcome per file.
pub open spec fn hash_events(outcomes: Seq<Option<u64>>) -> Seq<Event> {
    outcomes.map_values(|outcome: Option<u64>| hash_event(outcome))
}

/// The rows that the outcomes give: one for each file that was hashed, made
/// of the text of its fingerprint and of its path, in the order of the
/// files.
pub open spec fn rows_for(paths: Seq<EntryView>, outcomes: Seq<Option<u64>>) -> Seq<RowView>
    decreases outcomes.len(),
{
    if outcomes.len() == 0 {
        Seq::<RowView>::empty()
    } else {
        let earlier = rows_for(paths, outcomes.drop_last());
        match outcomes.last() {
            Some(fingerprint) => earlier.push(
                (hex16(fingerprint), paths[outcomes.len() - 1].path),
            ),
            None => earlier,
        }
    }
}

/// The bytes of the files that the outcomes give a row.
pub open spec fn bytes_for(paths: Seq<EntryView>, outcomes: Seq<Option<u64>>) -> nat
    decreases outcomes.len(),
{
    if outcomes.len() == 0 {
        0
    } else {
        let earlier = bytes_for(paths, outcomes.drop_last());
        match outcomes.last() {
            Some(_) => earlier + paths[outcomes.len() - 1].size,
            None => earlier,
        }
    }
}

/// What hashing leaves behind, from a run that has just finished its walk:
/// the rows are those that the outcomes give; a file that could not be read
/// is counted as a failure and as skipped, and no longer as a file; and the
/// bytes counted are those of the files with a row and of the files still to
/// hash.
pub proof fn lemma_hashing(state: DriverView, outcomes: Seq<Option<u64>>)
    requires
        state.phase == Phase::Hashing,
        state.cursor == 0,
        state.total_bytes == size_sum(state.paths),
        outcomes.len() <= state.paths.len(),
    ensures
        rows_for(state.paths, outcomes).len() <= outcomes.len(),
        run(state, hash_events(outcomes)) == (DriverView {
            cursor: outcomes.len(),
            rows: state.rows + rows_for(state.paths, outcomes),
            hash_failures: (state.hash_failures + outcomes.len() - rows_for(
                state.paths,
                outcomes,
            ).len()) as nat,
            skipped: (state.skipped + outcomes.len() - rows_for(
                state.paths,
                outcomes,
            ).len()) as nat,
            total_bytes: bytes_for(state.paths, outcomes) + size_sum(
                state.paths.skip(outcomes.len() as int),
            ),
            ..state
        }),
    decreases outcomes.len(),
{
    if outcomes.len() == 0 {
        assert(state.rows + rows_for(state.paths, outcomes) =~= state.rows);
        assert(state.paths.skip(0) =~= state.paths);
    } else {
        let shorter = outcomes.drop_last();
        let at = shorter.len() as int;
        lemma_hashing(state, shorter);
        assert(hash_events(outcomes).drop_last() =~= hash_events(shorter));
        let rest = state.paths.skip(at);
        lemma_size_sum_first(rest);
        assert(rest.skip(1) =~= state.paths.skip(at + 1));
        assert(rest[0] == state.paths[at]);
        match outcomes.last() {
            Some(fingerprint) => {
                assert(state.rows + rows_for(state.paths, outcomes) =~= (state.rows + rows_for(
                    state.paths,
                    shorter,
                )).push((hex16(fingerprint), state.paths[at].path)));
            },
            None => {},
        }
    }
}

/// The events of a whole run that meets no fatal error: the root is a
/// directory, the walk emits `entries`, hashing gives `outcomes`, the store
/// takes the rows and the copy is written.
pub open spec fn whole_run(entries: Seq<EntryView>, outcomes: Seq<Option<u64>>) -> Seq<Event> {
    seq![Event::Start { root_is_directory: true }] + entry_events(entries) + seq![Event::WalkDone]
        + hash_events(outcomes) + seq![
        Event::HashingDone,
        Event::Stored { accepted: true },
        Event::Snapshot { written: true },
    ]
}

/// The rows that a whole run leaves staged, and the store then holds.
pub open spec fn rows_of_run(entries: Seq<EntryView>, outcomes: Seq<Option<u64>>) -> Seq<RowView> {
    run(initial(), whole_run(entries, outcomes)).rows
}

/// A whole run ends done. Its rows are those of the
/// eligible entries that could be hashed; `files` is the number of rows;
/// `skipped` is the number of entries without a row, which are those that
/// are not eligible and those that could not be hashed; and `total_bytes` is
/// the sum of the sizes of the files that have a row.
pub proof fn lemma_whole_run(entries: Seq<EntryView>, outcomes: Seq<Option<u64>>)
    requires
        outcomes.len() == eligible_entries(entries).len(),
    ensures
        ({
            let end = run(initial(), whole_run(entries, outcomes));
            &&& end.phase == Phase::Done
            &&& end.failure is None
            &&& end.paths == eligible_entries(entries)
            &&& end.rows == rows_for(eligible_entries(entries), outcomes)
            &&& files_of(end) == end.rows.len()
            &&& end.skipped == passed_over_entries(entries).len() + end.hash_failures
            &&& end.hash_failures == outcomes.len() - end.rows.len()
            &&& end.skipped + files_of(end) == entries.len()
            &&& end.total_bytes == bytes_for(eligible_entries(entries), outcomes)
        }),
{
    lemma_passed_over(entries);
    let paths = eligible_entries(entries);
    let opening = seq![Event::Start { root_is_directory: true }];
    let closing = seq![
        Event::HashingDone,
        Event::Stored { accepted: true },
        Event::Snapshot { written: true },
    ];
    let started = run(initial(), opening);
    lemma_run_one(initial(), Event::Start { root_is_directory: true });
    let walked = run(started, entry_events(entries));
    lemma_walk(started, entries);
    assert(Seq::<EntryView>::empty() + paths =~= paths);
    let turned = run(walked, seq![Event::WalkDone]);
    lemma_run_one(walked, Event::WalkDone);
    let hashed = run(turned, hash_events(outcomes));
    lemma_hashing(turned, outcomes);
    assert(Seq::<RowView>::empty() + rows_for(paths, outcomes) =~= rows_for(paths, outcomes));
    assert(paths.skip(paths.len() as int) =~= Seq::<EntryView>::empty());
    let end = run(hashed, closing);
    assert(end == step(
        step(step(hashed, Event::HashingDone), Event::Stored { accepted: true }),
        Event::Snapshot { written: true },
    )) by {
        let first = seq![Event::HashingDone];
        let second = seq![Event::Stored { accepted: true }];
        let third = seq![Event::Snapshot { written: true }];
        assert(closing =~= first + second + third);
        lemma_run_add(hashed, first, second);
        lemma_run_add(hashed, first + second, third);
        lemma_run_one(hashed, Event::HashingDone);
        lemma_run_one(run(hashed, first), Event::Stored { accepted: true });
        lemma_run_one(run(hashed, first + second), Event::Snapshot { written: true });
    }
    lemma_run_add(initial(), opening, entry_events(entries));
    lemma_run_add(initial(), opening + entry_events(entries), seq![Event::WalkDone]);
    lemma_run_add(
        initial(),
        opening + entry_events(entries) + seq![Event::WalkDone],
        hash_events(outcomes),
    );
    lemma_run_add(
        initial(),
        opening + entry_events(entries) + seq![Event::WalkDone] + hash_events(outcomes),
        closing,
    );
}

} // verus!
