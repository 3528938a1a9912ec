//! The pipeline driver: it takes a run through its phases, one event at a
//! time, and keeps the counters.
//!
//! The driver decides; its caller does the outside work. The caller checks
//! the root, walks it, reads the files and writes the copy to disk, and
//! tells the driver how each of these went. An event that does not belong
//! to the phase the run is in changes nothing.

use crate::error::PipelineError;
use crate::hex::hex16;
use crate::stager::{RowStager, RowView};
use crate::store::MemoryTable;
use crate::walk::{
    is_eligible, lemma_size_sum_first, lemma_size_sum_push, size_sum, EntryView, WalkEntry,
};
use vstd::prelude::*;

verus! {

/// Where a run stands.
#[derive(Clone, Copy, Debug, PartialEq, Eq, Structural)]
pub enum Phase {
    Init,
    Walking,
    Hashing,
    Inserting,
    Snapshotting,
    Done,
    Failed,
}

/// The mathematical state of a run.
pub struct DriverView {
    /// The phase the run is in.
    pub phase: Phase,
    /// The entries to hash, in the order in which the walk emitted them.
    pub paths: Seq<EntryView>,
    /// How many emitted entries have no row: those that were passed over,
    /// and the files that could not be hashed.
    pub skipped: nat,
    /// How many entries the walk could not read.
    pub walk_failures: nat,
    /// How many of `paths` have been hashed or given up.
    pub cursor: nat,
    /// How many files could not be hashed.
    pub hash_failures: nat,
    /// The bytes of the files that are counted.
    pub total_bytes: nat,
    /// The rows staged so far.
    pub rows: Seq<RowView>,
    /// Why the run failed, once it has.
    pub failure: Option<PipelineError>,
}

/// What a caller can tell the driver.
pub enum Event {
    /// The root was looked at: it is a directory, or it is not.
    Start { root_is_directory: bool },
    /// The walk emitted an entry.
    Entry { entry: EntryView },
    /// The walk could not read an entry.
    WalkFailure,
    /// The walk is over.
    WalkDone,
    /// The next file was hashed.
    Fingerprint { fingerprint: u64 },
    /// The next file could not be opened or read.
    HashFailure,
    /// No file is left to hash.
    HashingDone,
    /// The store took every row and committed, or refused a statement.
    Stored { accepted: bool },
    /// The copy on disk was written, or could not be.
    Snapshot { written: bool },
}

/// The state in which every run starts.
pub open spec fn initial() -> DriverView {
    DriverView {
        phase: Phase::Init,
        paths: Seq::empty(),
        skipped: 0,
        walk_failures: 0,
        cursor: 0,
        hash_failures: 0,
        total_bytes: 0,
        rows: Seq::empty(),
        failure: None,
    }
}

/// The state of a run that has failed for `error`.
pub open spec fn failed(state: DriverView, error: PipelineError) -> DriverView {
    DriverView { phase: Phase::Failed, failure: Some(error), ..state }
}

/// The state after an event.
pub open spec fn step(state: DriverView, event: Event) -> DriverView {
    match event {
        Event::Start { root_is_directory } => if state.phase != Phase::Init {
            state
        } else if root_is_directory {
            DriverView { phase: Phase::Walking, ..state }
        } else {
            failed(state, PipelineError::BadRoot)
        },
        Event::Entry { entry } => if state.phase != Phase::Walking {
            state
        } else if is_eligible(entry) {
            DriverView {
                paths: state.paths.push(entry),
                total_bytes: state.total_bytes + entry.size,
                ..state
            }
        } else {
            DriverView { skipped: state.skipped + 1, ..state }
        },
        Event::WalkFailure => if state.phase != Phase::Walking {
            state
        } else {
            DriverView { walk_failures: state.walk_failures + 1, ..state }
        },
        Event::WalkDone => if state.phase != Phase::Walking {
            state
        } else {
            DriverView { phase: Phase::Hashing, ..state }
        },
        Event::Fingerprint { fingerprint } => if state.phase != Phase::Hashing || state.cursor
            >= state.paths.len() {
            state
        } else {
            DriverView {
                cursor: state.cursor + 1,
                rows: state.rows.push((hex16(fingerprint), state.paths[state.cursor as int].path)),
                ..state
            }
        },
        Event::HashFailure => if state.phase != Phase::Hashing || state.cursor
            >= state.paths.len() {
            state
        } else {
            DriverView {
                cursor: state.cursor + 1,
                hash_failures: state.hash_failures + 1,
                skipped: state.skipped + 1,
                total_bytes: (state.total_bytes - state.paths[state.cursor as int].size) as nat,
                ..state
            }
        },
        Event::HashingDone => if state.phase != Phase::Hashing || state.cursor
            != state.paths.len() {
            state
        } else {
            DriverView { phase: Phase::Inserting, ..state }
        },
        Event::Stored { accepted } => if state.phase != Phase::Inserting {
            state
        } else if accepted {
            DriverView { phase: Phase::Snapshotting, ..state }
        } else {
            failed(state, PipelineError::StoreInsertFailed)
        },
        Event::Snapshot { written } => if state.phase != Phase::Snapshotting {
            state
        } else if written {
            DriverView { phase: Phase::Done, ..state }
        } else {
            failed(state, PipelineError::SnapshotFailed)
        },
    }
}

/// How far a phase is from the start of a run.
pub open spec fn rank(phase: Phase) -> nat {
    match phase {
        Phase::Init => 0,
        Phase::Walking => 1,
        Phase::Hashing => 2,
        Phase::Inserting => 3,
        Phase::Snapshotting => 4,
        Phase::Done => 5,
        Phase::Failed => 6,
    }
}

/// What holds of every state that a run can be in, whatever the events
/// were: nothing is hashed before the walk is over; every file that has had
/// its turn has a row or is counted as a failure, and every failure as
/// skipped; the files to hash are eligible; the bytes counted cover the
/// files still to hash; nothing is inserted before every file has had its
/// turn; and a run has an error exactly when it has failed.
pub open spec fn consistent(state: DriverView) -> bool {
    &&& state.cursor <= state.paths.len()
    &&& state.rows.len() + state.hash_failures == state.cursor
    &&& state.hash_failures <= state.skipped
    &&& rank(state.phase) <= rank(Phase::Walking) ==> state.cursor == 0
    &&& rank(Phase::Inserting) <= rank(state.phase) <= rank(Phase::Done) ==> state.cursor
        == state.paths.len()
    &&& forall|i: int| 0 <= i < state.paths.len() ==> is_eligible(#[trigger] state.paths[i])
    &&& size_sum(state.paths.skip(state.cursor as int)) <= state.total_bytes
    &&& (state.phase == Phase::Failed <==> state.failure is Some)
}

/// Every step keeps a state consistent.
pub proof fn lemma_step_keeps_consistent(state: DriverView, event: Event)
    requires
        consistent(state),
    ensures
        consistent(step(state, event)),
{
    let after = step(state, event);
    let at = state.cursor as int;
    match event {
        Event::Entry { entry } => {
            if state.phase == Phase::Walking && is_eligible(entry) {
                assert(after.paths.skip(at) =~= state.paths.skip(at).push(entry));
                lemma_size_sum_push(state.paths.skip(at), entry);
            }
        },
        Event::Fingerprint { .. } | Event::HashFailure => {
            if state.phase == Phase::Hashing && state.cursor < state.paths.len() {
                lemma_size_sum_first(state.paths.skip(at));
                assert(state.paths.skip(at).skip(1) =~= state.paths.skip(at + 1));
            }
        },
        _ => {},
    }
}

/// How many files are counted: those to hash, less those given up.
pub open spec fn files_of(state: DriverView) -> int {
    state.paths.len() - state.hash_failures
}

/// The counters of a run.
#[derive(Clone, Copy, Debug, PartialEq, Eq, Structural)]
pub struct Counters {
    /// Files that have, or are still to get, a row.
    pub files: u64,
    /// Emitted entries that have no row.
    pub skipped: u64,
    /// The bytes of the counted files.
    pub total_bytes: u128,
}

impl Counters {
    /// The counted bytes in whole mebibytes.
    pub fn megabytes(&self) -> (whole: u128)
        ensures
            whole == self.total_bytes / 1024 / 1024,
    {
        self.total_bytes / 1024 / 1024
    }
}

/// The views of a sequence of entries.
pub open spec fn entry_views(entries: Seq<WalkEntry>) -> Seq<EntryView> {
    entries.map_values(|entry: WalkEntry| entry@)
}

/// A run in progress.
pub struct Driver {
    phase: Phase,
    paths: Vec<WalkEntry>,
    skipped: u64,
    walk_failures: u64,
    cursor: usize,
    hash_failures: usize,
    total_bytes: u128,
    stager: RowStager,
    failure: Option<PipelineError>,
}

impl View for Driver {
    type V = DriverView;

    closed spec fn view(&self) -> DriverView {
        DriverView {
            phase: self.phase,
            paths: entry_views(self.paths@),
            skipped: self.skipped as nat,
            walk_failures: self.walk_failures as nat,
            cursor: self.cursor as nat,
            hash_failures: self.hash_failures as nat,
            total_bytes: self.total_bytes as nat,
            rows: self.stager@,
            failure: self.failure,
        }
    }
}

impl Driver {
    /// What holds of a driver between calls: its state is consistent, and
    /// its counters fit their types.
    pub closed spec fn well_formed(&self) -> bool {
        &&& self.stager.well_formed()
        &&& consistent(self@)
        &&& self.total_bytes <= self.paths@.len() * u64::MAX
    }

    /// The state of a driver is consistent, whatever it was told.
    pub proof fn lemma_consistent(&self)
        requires
            self.well_formed(),
        ensures
            consistent(self@),
    {
    }

    /// A driver at the start of a run, with room for `capacity` files.
    pub fn with_capacity(capacity: usize) -> (driver: Self)
        ensures
            driver.well_formed(),
            driver@ == initial(),
    {
        let driver = Driver {
            phase: Phase::Init,
            paths: Vec::with_capacity(capacity),
            skipped: 0,
            walk_failures: 0,
            cursor: 0,
            hash_failures: 0,
            total_bytes: 0,
            stager: RowStager::with_capacity(capacity),
            failure: None,
        };
        assert(entry_views(driver.paths@) =~= Seq::<EntryView>::empty());
        assert(initial().paths.skip(0) =~= Seq::<EntryView>::empty());
        driver
    }

    /// Starts the run, once the caller has looked at the root: the walk
    /// begins if the root is a directory, and the run fails with `BadRoot`
    /// if it is not.
    pub fn start(&mut self, root_is_directory: bool)
        requires
            old(self).well_formed(),
        ensures
            final(self).well_formed(),
            final(self)@ == step(old(self)@, Event::Start { root_is_directory }),
    {
        if self.phase == Phase::Init {
            if root_is_directory {
                self.phase = Phase::Walking;
            } else {
                self.phase = Phase::Failed;
                self.failure = Some(PipelineError::BadRoot);
            }
        }
        proof {
            lemma_step_keeps_consistent(old(self)@, Event::Start { root_is_directory });
        }
    }

    /// Takes an entry that the walk emitted: a regular file that is not
    /// empty joins the files to hash and is counted with its size; anything
    /// else is passed over.
    pub fn record_entry(&mut self, entry: WalkEntry)
        requires
            old(self).well_formed(),
            old(self)@.skipped < u64::MAX,
        ensures
            final(self).well_formed(),
            final(self)@ == step(old(self)@, Event::Entry { entry: entry@ }),
    {
        if self.phase == Phase::Walking {
            if entry.eligible() {
                let ghost before = entry_views(self.paths@);
                let count: usize = self.paths.len();
                proof {
                    assert(count * u64::MAX + u64::MAX <= u128::MAX) by (nonlinear_arith)
                        requires
                            count <= u64::MAX,
                    ;
                }
                self.total_bytes = self.total_bytes + entry.size as u128;
                self.paths.push(entry);
                assert(entry_views(self.paths@) =~= before.push(entry@));
            } else {
                self.skipped = self.skipped + 1;
            }
        }
        proof {
            lemma_step_keeps_consistent(old(self)@, Event::Entry { entry: entry@ });
        }
    }

    /// Counts an entry that the walk could not read, and hands back the
    /// error to report for it. The walk goes on.
    pub fn record_walk_failure(&mut self) -> (reported: Option<PipelineError>)
        requires
            old(self).well_formed(),
            old(self)@.walk_failures < u64::MAX,
        ensures
            final(self).well_formed(),
            final(self)@ == step(old(self)@, Event::WalkFailure),
            reported == if old(self)@.phase == Phase::Walking {
                Some(PipelineError::WalkEntryFailed)
            } else {
                None
            },
    {
        proof {
            lemma_step_keeps_consistent(old(self)@, Event::WalkFailure);
        }
        if self.phase == Phase::Walking {
            self.walk_failures = self.walk_failures + 1;
            Some(PipelineError::WalkEntryFailed)
        } else {
            None
        }
    }

    /// Ends the walk: hashing begins.
    pub fn finish_walk(&mut self)
        requires
            old(self).well_formed(),
        ensures
            final(self).well_formed(),
            final(self)@ == step(old(self)@, Event::WalkDone),
    {
        if self.phase == Phase::Walking {
            self.phase = Phase::Hashing;
        }
        proof {
            lemma_step_keeps_consistent(old(self)@, Event::WalkDone);
        }
    }

    /// The path of the next file to hash, while the run is hashing and a
    /// file is left.
    pub fn next_path(&self) -> (next: Option<&str>)
        requires
            self.well_formed(),
        ensures
            next is Some <==> self@.phase == Phase::Hashing && self@.cursor < self@.paths.len(),
            next matches Some(path) ==> path@ == self@.paths[self@.cursor as int].path,
    {
        if self.phase == Phase::Hashing && self.cursor < self.paths.len() {
            Some(self.paths[self.cursor].path.as_str())
        } else {
            None
        }
    }

    /// How many files the walk has found to hash.
    pub fn path_count(&self) -> (count: usize)
        ensures
            count == self@.paths.len(),
    {
        self.paths.len()
    }

    /// The path of the file at `index` among the files to hash, so that
    /// files can be read ahead of their turn.
    pub fn path_at(&self, index: usize) -> (found: Option<&str>)
        ensures
            found is Some <==> index < self@.paths.len(),
            found matches Some(path) ==> path@ == self@.paths[index as int].path,
    {
        if index < self.paths.len() {
            Some(self.paths[index].path.as_str())
        } else {
            None
        }
    }

    /// Takes the fingerprint of the next file and stages its row.
    pub fn record_fingerprint(&mut self, fingerprint: u64)
        requires
            old(self).well_formed(),
        ensures
            final(self).well_formed(),
            final(self)@ == step(old(self)@, Event::Fingerprint { fingerprint }),
    {
        if self.phase == Phase::Hashing && self.cursor < self.paths.len() {
            self.stager.stage(fingerprint, self.paths[self.cursor].path.as_str());
            self.cursor = self.cursor + 1;
        }
        proof {
            lemma_step_keeps_consistent(old(self)@, Event::Fingerprint { fingerprint });
        }
    }

    /// Gives up the next file, which could not be opened or read: it gets
    /// no row, and it moves from the files to the skipped entries, with its
    /// bytes. The error to report for it is handed back. The run goes on.
    pub fn record_hash_failure(&mut self) -> (reported: Option<PipelineError>)
        requires
            old(self).well_formed(),
            old(self)@.skipped < u64::MAX,
        ensures
            final(self).well_formed(),
            final(self)@ == step(old(self)@, Event::HashFailure),
            reported == if old(self)@.phase == Phase::Hashing && old(self)@.cursor < old(
                self,
            )@.paths.len() {
                Some(PipelineError::HashIoFailed)
            } else {
                None
            },
    {
        proof {
            lemma_step_keeps_consistent(old(self)@, Event::HashFailure);
        }
        if self.phase == Phase::Hashing && self.cursor < self.paths.len() {
            proof {
                let rest = entry_views(self.paths@).skip(self.cursor as int);
                lemma_size_sum_first(rest);
                assert(rest[0].size == self.paths@[self.cursor as int].size);
            }
            self.total_bytes = self.total_bytes - self.paths[self.cursor].size as u128;
            self.hash_failures = self.hash_failures + 1;
            self.skipped = self.skipped + 1;
            self.cursor = self.cursor + 1;
            Some(PipelineError::HashIoFailed)
        } else {
            None
        }
    }

    /// Ends hashing, once no file is left: inserting begins.
    pub fn finish_hashing(&mut self)
        requires
            old(self).well_formed(),
        ensures
            final(self).well_formed(),
            final(self)@ == step(old(self)@, Event::HashingDone),
    {
        if self.phase == Phase::Hashing && self.cursor == self.paths.len() {
            self.phase = Phase::Inserting;
        }
        proof {
            lemma_step_keeps_consistent(old(self)@, Event::HashingDone);
        }
    }

    /// Fills the table with the staged rows, in one transaction. Where the
    /// store takes them all, the table has them behind what it had, and the
    /// run goes on to write its copy; where the store refuses, the run
    /// fails with `StoreInsertFailed`. Outside the inserting phase nothing
    /// is touched.
    pub fn insert_rows(&mut self, table: &mut MemoryTable) -> (accepted: bool)
        requires
            old(self).well_formed(),
        ensures
            final(self).well_formed(),
            final(self)@ == step(old(self)@, Event::Stored { accepted }),
            old(self)@.phase == Phase::Inserting && accepted ==> final(table)@ == old(table)@ + old(
                self,
            )@.rows,
            old(self)@.phase != Phase::Inserting ==> !accepted && final(table)@ == old(table)@,
    {
        let accepted = if self.phase == Phase::Inserting {
            match table.insert_all(&self.stager) {
                Ok(()) => {
                    self.phase = Phase::Snapshotting;
                    true
                },
                Err(error) => {
                    self.phase = Phase::Failed;
                    self.failure = Some(error);
                    false
                },
            }
        } else {
            false
        };
        proof {
            lemma_step_keeps_consistent(old(self)@, Event::Stored { accepted });
        }
        accepted
    }

    /// Takes the outcome of writing the copy to disk: the run is done, or
    /// it fails with `SnapshotFailed`.
    pub fn record_snapshot(&mut self, written: bool)
        requires
            old(self).well_formed(),
        ensures
            final(self).well_formed(),
            final(self)@ == step(old(self)@, Event::Snapshot { written }),
    {
        if self.phase == Phase::Snapshotting {
            if written {
                self.phase = Phase::Done;
            } else {
                self.phase = Phase::Failed;
                self.failure = Some(PipelineError::SnapshotFailed);
            }
        }
        proof {
            lemma_step_keeps_consistent(old(self)@, Event::Snapshot { written });
        }
    }

    /// The phase the run is in.
    pub fn phase(&self) -> (phase: Phase)
        ensures
            phase == self@.phase,
    {
        self.phase
    }

    /// Why the run failed, if it has.
    pub fn failure(&self) -> (failure: Option<PipelineError>)
        ensures
            failure == self@.failure,
    {
        self.failure
    }

    /// How many entries the walk could not read.
    pub fn walk_failures(&self) -> (count: u64)
        ensures
            count == self@.walk_failures,
    {
        self.walk_failures
    }

    /// How many files could not be hashed.
    pub fn hash_failures(&self) -> (count: usize)
        ensures
            count == self@.hash_failures,
    {
        self.hash_failures
    }

    /// The counters as they stand.
    pub fn counters(&self) -> (counters: Counters)
        requires
            self.well_formed(),
        ensures
            counters.files == files_of(self@),
            counters.skipped == self@.skipped,
            counters.total_bytes == self@.total_bytes,
    {
        Counters {
            files: (self.paths.len() - self.hash_failures) as u64,
            skipped: self.skipped,
            total_bytes: self.total_bytes,
        }
    }

    /// How the run ended: its counters where it is done, when `files` is the
    /// number of rows; its error where it failed; and nothing while it is
    /// under way.
    pub fn outcome(&self) -> (outcome: Option<Result<Counters, PipelineError>>)
        requires
            self.well_formed(),
        ensures
            self@.phase == Phase::Done ==> (outcome matches Some(Ok(counters)) && counters.files
                == self@.rows.len() && counters.skipped == self@.skipped && counters.total_bytes
                == self@.total_bytes),
            self@.phase == Phase::Failed ==> (outcome matches Some(Err(error)) && self@.failure
                == Some(error)),
            self@.phase != Phase::Done && self@.phase != Phase::Failed ==> outcome is None,
    {
        match self.phase {
            Phase::Done => Some(Ok(self.counters())),
            Phase::Failed => match self.failure {
                Some(error) => Some(Err(error)),
                None => vstd::pervasive::unreached(),
            },
            _ => None,
        }
    }
}

} // verus!
