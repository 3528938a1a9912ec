use fast_file_tracker::error::PipelineError;
use fast_file_tracker::stager::RowStager;
use fast_file_tracker::store::{store_outcome, MemoryTable, BEGIN, COMMIT, CREATE_TABLE, INSERT_ROW};

fn rows_in(conn: &rusqlite::Connection) -> Vec<(String, String)> {
    let mut statement = conn
        .prepare("SELECT xxhash64, file_path FROM entries ORDER BY rowid")
        .unwrap();
    let rows = statement
        .query_map((), |row| Ok((row.get::<_, String>(0)?, row.get::<_, String>(1)?)))
        .unwrap();
    rows.map(|row| row.unwrap()).collect()
}

#[test]
fn a_new_table_is_empty() {
    let table = MemoryTable::create().unwrap();
    assert_eq!(rows_in(table.connection()), Vec::<(String, String)>::new());
}

#[test]
fn the_table_has_the_two_text_columns() {
    let table = MemoryTable::create().unwrap();
    let mut statement = table
        .connection()
        .prepare("SELECT name, type, \"notnull\" FROM pragma_table_info('entries') ORDER BY cid")
        .unwrap();
    let columns: Vec<(String, String, i64)> = statement
        .query_map((), |row| Ok((row.get(0)?, row.get(1)?, row.get(2)?)))
        .unwrap()
        .map(|column| column.unwrap())
        .collect();
    assert_eq!(
        columns,
        vec![
            ("xxhash64".to_string(), "TEXT".to_string(), 1),
            ("file_path".to_string(), "TEXT".to_string(), 1),
        ]
    );
}

#[test]
fn no_index_trigger_or_view_is_created() {
    let table = MemoryTable::create().unwrap();
    let others: i64 = table
        .connection()
        .query_row(
            "SELECT COUNT(*) FROM sqlite_master WHERE type != 'table'",
            (),
            |row| row.get(0),
        )
        .unwrap();
    assert_eq!(others, 0);
}

#[test]
fn staged_rows_land_in_staging_order() {
    let mut stager = RowStager::with_capacity(3);
    stager.stage(0xE4C1_91D0_91BD_8853, "root/a.txt");
    stager.stage(0xE5C7_BB45_33BC_65DD, "root/b.bin");
    stager.stage(0, "root/it's");
    let mut table = MemoryTable::create().unwrap();
    assert_eq!(table.insert_all(&stager), Ok(()));
    assert_eq!(
        rows_in(table.connection()),
        vec![
            ("e4c191d091bd8853".to_string(), "root/a.txt".to_string()),
            ("e5c7bb4533bc65dd".to_string(), "root/b.bin".to_string()),
            ("0000000000000000".to_string(), "root/it's".to_string()),
        ]
    );
}

#[test]
fn the_transaction_is_committed() {
    let mut stager = RowStager::with_capacity(1);
    stager.stage(1, "one");
    let mut table = MemoryTable::create().unwrap();
    table.insert_all(&stager).unwrap();
    assert!(table.connection().is_autocommit());
}

#[test]
fn a_second_batch_goes_behind_the_first() {
    let mut first = RowStager::with_capacity(1);
    first.stage(1, "one");
    let mut second = RowStager::with_capacity(1);
    second.stage(2, "two");
    let mut table = MemoryTable::create().unwrap();
    table.insert_all(&first).unwrap();
    table.insert_all(&second).unwrap();
    assert_eq!(
        rows_in(table.connection()),
        vec![
            ("0000000000000001".to_string(), "one".to_string()),
            ("0000000000000002".to_string(), "two".to_string()),
        ]
    );
}

#[test]
fn nothing_staged_leaves_the_table_empty() {
    let stager = RowStager::with_capacity(0);
    let mut table = MemoryTable::create().unwrap();
    assert_eq!(table.insert_all(&stager), Ok(()));
    assert!(rows_in(table.connection()).is_empty());
}

#[test]
fn duplicates_are_not_removed() {
    let mut stager = RowStager::with_capacity(2);
    stager.stage(9, "same");
    stager.stage(9, "same");
    let mut table = MemoryTable::create().unwrap();
    table.insert_all(&stager).unwrap();
    assert_eq!(rows_in(table.connection()).len(), 2);
}

#[test]
fn a_refused_statement_fails_the_insert() {
    let mut stager = RowStager::with_capacity(1);
    stager.stage(1, "one");
    let mut table = MemoryTable::create().unwrap();
    table.connection().execute_batch("DROP TABLE entries").unwrap();
    assert_eq!(
        table.insert_all(&stager),
        Err(PipelineError::StoreInsertFailed)
    );
}

#[test]
fn an_open_transaction_fails_the_insert() {
    let stager = RowStager::with_capacity(0);
    let mut table = MemoryTable::create().unwrap();
    table.connection().execute_batch("BEGIN").unwrap();
    assert_eq!(
        table.insert_all(&stager),
        Err(PipelineError::StoreInsertFailed)
    );
}

#[test]
fn the_store_answer_is_mapped_to_the_run() {
    assert_eq!(store_outcome::<usize>(Ok(1)), Ok(1));
    assert_eq!(
        store_outcome::<usize>(Err(rusqlite::Error::InvalidQuery)),
        Err(PipelineError::StoreInsertFailed)
    );
}

#[test]
fn the_statements_are_the_documented_ones() {
    assert!(CREATE_TABLE.contains("entries"));
    assert!(CREATE_TABLE.contains("xxhash64 TEXT NOT NULL"));
    assert!(CREATE_TABLE.contains("file_path TEXT NOT NULL"));
    assert_eq!(BEGIN, "BEGIN DEFERRED");
    assert_eq!(COMMIT, "COMMIT");
    assert_eq!(
        INSERT_ROW,
        "INSERT INTO entries (xxhash64, file_path) VALUES (?1, ?2)"
    );
}

#[test]
fn a_copy_on_disk_replaces_the_one_before() {
    let path = "/tmp/fast_file_tracker_snapshot_test.sqlite3";

    let mut earlier = RowStager::with_capacity(2);
    earlier.stage(1, "old/one");
    earlier.stage(2, "old/two");
    let mut table = MemoryTable::create().unwrap();
    table.insert_all(&earlier).unwrap();
    table
        .connection()
        .backup(rusqlite::MAIN_DB, path, None)
        .unwrap();

    let mut later = RowStager::with_capacity(1);
    later.stage(3, "new/three");
    let mut table = MemoryTable::create().unwrap();
    table.insert_all(&later).unwrap();
    table
        .connection()
        .backup(rusqlite::MAIN_DB, path, None)
        .unwrap();

    let copy = rusqlite::Connection::open(path).unwrap();
    assert_eq!(
        rows_in(&copy),
        vec![("0000000000000003".to_string(), "new/three".to_string())]
    );
}
