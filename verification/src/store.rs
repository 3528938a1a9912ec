//! The in-memory store: one table, `entries`, in an in-memory SQLite
//! database of the `rusqlite` crate, filled in a single transaction.

use crate::error::PipelineError;
use crate::stager::{RowStager, RowView};
use rusqlite::Connection;
use vstd::prelude::*;

verus! {

/// `rusqlite::Connection`, a connection to an SQLite database. Nothing inside
/// it is read here: it is carried from one call of the crate to the next.
#[verifier::external_type_specification]
#[verifier::external_body]
pub struct ExConnection(Connection);

/// `rusqlite::Error`, what a refused call hands back. It is told apart from
/// success and otherwise not looked into.
#[verifier::external_type_specification]
#[verifier::external_body]
pub struct ExSqliteError(rusqlite::Error);

/// The rows of table `entries` as a connection sees them, oldest first; no
/// rows while the database has no such table.
pub uninterp spec fn stored_rows(conn: Connection) -> Seq<RowView>;

/// The statement that creates the table.
pub const CREATE_TABLE: &'static str =
    "CREATE TABLE IF NOT EXISTS entries (xxhash64 TEXT NOT NULL, file_path TEXT NOT NULL);";

/// The statement that opens the insert transaction.
pub const BEGIN: &'static str = "BEGIN DEFERRED";

/// The statement that commits the insert transaction.
pub const COMMIT: &'static str = "COMMIT";

/// The statement that inserts one row; its two parameters are the text of
/// the fingerprint and the path.
pub const INSERT_ROW: &'static str = "INSERT INTO entries (xxhash64, file_path) VALUES (?1, ?2)";

/// Whether `sql` is one of the statements that leave the rows alone.
pub open spec fn keeps_rows(sql: Seq<char>) -> bool {
    sql == CREATE_TABLE@ || sql == BEGIN@ || sql == COMMIT@
}

/// `Connection::open_in_memory`: a database that is opened in memory starts
/// without tables, so without rows.
pub assume_specification[ Connection::open_in_memory ]() -> (opened: Result<
    Connection,
    rusqlite::Error,
>)
    ensures
        opened matches Ok(conn) ==> stored_rows(conn) == Seq::<RowView>::empty(),
;

/// `Connection::execute_batch`, on a statement that creates the table if it
/// is missing, or opens or commits a transaction: where it succeeds, the
/// connection sees the rows it saw before.
#[verifier::external_body]
fn run_batch(conn: &mut Connection, sql: &str) -> (outcome: Result<(), rusqlite::Error>)
    requires
        keeps_rows(sql@),
    ensures
        outcome is Ok ==> stored_rows(*final(conn)) == stored_rows(*old(conn)),
{
    conn.execute_batch(sql)
}

/// `Connection::execute`, on the insert statement with its two text
/// parameters bound: where it succeeds, the table has one more row, the
/// newest, made of the two texts.
#[verifier::external_body]
fn run_insert(conn: &mut Connection, sql: &str, fingerprint: &str, path: &str) -> (outcome: Result<
    usize,
    rusqlite::Error,
>)
    requires
        sql@ == INSERT_ROW@,
    ensures
        outcome is Ok ==> stored_rows(*final(conn)) == stored_rows(*old(conn)).push(
            (fingerprint@, path@),
        ),
{
    conn.execute(sql, (fingerprint, path))
}

/// What the store's answer to a statement means for the run: the store's
/// value where it accepted, and `StoreInsertFailed` where it refused.
pub fn store_outcome<T>(answer: Result<T, rusqlite::Error>) -> (outcome: Result<T, PipelineError>)
    ensures
        answer is Ok ==> outcome == Ok::<T, PipelineError>(answer->Ok_0),
        answer is Err ==> outcome == Err::<T, PipelineError>(PipelineError::StoreInsertFailed),
{
    match answer {
        Ok(value) => Ok(value),
        Err(_) => Err(PipelineError::StoreInsertFailed),
    }
}

/// The table `entries`, held in memory. Its view is the rows of the table,
/// oldest first.
pub struct MemoryTable {
    conn: Connection,
}

impl View for MemoryTable {
    type V = Seq<RowView>;

    closed spec fn view(&self) -> Seq<RowView> {
        stored_rows(self.conn)
    }
}

impl MemoryTable {
    /// Opens a database in memory and creates the empty table in it.
    pub fn create() -> (created: Result<MemoryTable, PipelineError>)
        ensures
            created matches Ok(table) ==> table@ == Seq::<RowView>::empty(),
            created matches Err(error) ==> error == PipelineError::StoreInsertFailed,
    {
        let mut conn = match store_outcome(Connection::open_in_memory()) {
            Ok(conn) => conn,
            Err(error) => {
                return Err(error);
            },
        };
        match store_outcome(run_batch(&mut conn, CREATE_TABLE)) {
            Ok(()) => Ok(MemoryTable { conn }),
            Err(error) => Err(error),
        }
    }

    /// Inserts every staged row, in staging order, inside one transaction
    /// that is committed once. Where the store refuses a statement, the
    /// transaction is left uncommitted and the run has failed.
    pub fn insert_all(&mut self, stager: &RowStager) -> (outcome: Result<(), PipelineError>)
        requires
            stager.well_formed(),
        ensures
            outcome is Ok ==> final(self)@ == old(self)@ + stager@,
            outcome matches Err(error) ==> error == PipelineError::StoreInsertFailed,
    {
        if let Err(error) = store_outcome(run_batch(&mut self.conn, BEGIN)) {
            return Err(error);
        }
        let count = stager.len();
        let mut index: usize = 0;
        while index < count
            invariant
                stager.well_formed(),
                count == stager@.len(),
                index <= count,
                self@ == old(self)@ + stager@.take(index as int),
            decreases count - index,
        {
            let row = stager.row(index);
            if let Err(error) = store_outcome(
                run_insert(&mut self.conn, INSERT_ROW, row.0.as_str(), row.1.as_str()),
            ) {
                return Err(error);
            }
            assert(stager@.take(index + 1) =~= stager@.take(index as int).push(
                stager@[index as int],
            ));
            assert(self@ =~= old(self)@ + stager@.take(index + 1));
            index += 1;
        }
        assert(stager@.take(count as int) =~= stager@);
        store_outcome(run_batch(&mut self.conn, COMMIT))
    }

    /// The connection that holds the table, for writing its copy to disk.
    /// What is stated of the table holds as long as the database is only
    /// read through it.
    pub fn connection(&self) -> (conn: &Connection)
        ensures
            stored_rows(*conn) == self@,
    {
        &self.conn
    }
}

} // verus!
