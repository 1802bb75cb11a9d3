use herdr_flow::durability::verify_pragmas;
use herdr_flow::rows::{from_sql_integer, to_sql_integer};
use herdr_flow::{base_protocol, SqliteStore, StoreError, BASE_PROTOCOL};
use rusqlite::Connection;

#[test]
fn exposes_the_versioned_base_protocol() {
    assert_eq!(BASE_PROTOCOL, "herdr.flow/v1");
    assert_eq!(base_protocol(), "herdr.flow/v1");
}

#[test]
fn in_memory_database_breaks_the_durability_contract() {
    let connection = Connection::open_in_memory().unwrap();
    connection.pragma_update(None, "foreign_keys", "ON").unwrap();
    connection.pragma_update(None, "journal_mode", "WAL").unwrap();
    connection.pragma_update(None, "synchronous", "FULL").unwrap();
    connection.pragma_update(None, "trusted_schema", "OFF").unwrap();
    let journal_mode: String = connection
        .pragma_query_value(None, "journal_mode", |row| row.get(0))
        .unwrap();
    let synchronous: i64 = connection
        .pragma_query_value(None, "synchronous", |row| row.get(0))
        .unwrap();
    let foreign_keys: i64 = connection
        .pragma_query_value(None, "foreign_keys", |row| row.get(0))
        .unwrap();
    let trusted_schema: i64 = connection
        .pragma_query_value(None, "trusted_schema", |row| row.get(0))
        .unwrap();
    assert!(matches!(
        SqliteStore::open(&journal_mode, synchronous, foreign_keys, trusted_schema),
        Err(StoreError::IncompatiblePragma("journal_mode"))
    ));

    assert_eq!(
        verify_pragmas(&journal_mode, synchronous, foreign_keys, trusted_schema),
        Err(StoreError::IncompatiblePragma("journal_mode"))
    );
}

#[test]
fn store_opens_on_the_required_settings() {
    let store = SqliteStore::open("wal", 2, 1, 0).unwrap();
    assert_eq!(store.runs.len(), 0);
    assert_eq!(verify_pragmas("wal", 2, 1, 0), Ok(()));
}

#[test]
fn write_ahead_log_is_recognised_in_any_case() {
    assert_eq!(verify_pragmas("WAL", 2, 1, 0), Ok(()));
    assert_eq!(verify_pragmas("wAl", 2, 1, 0), Ok(()));
    assert_eq!(
        verify_pragmas("wall", 2, 1, 0),
        Err(StoreError::IncompatiblePragma("journal_mode"))
    );
    assert_eq!(
        verify_pragmas("", 2, 1, 0),
        Err(StoreError::IncompatiblePragma("journal_mode"))
    );
}

#[test]
fn first_broken_pragma_is_named() {
    assert_eq!(
        verify_pragmas("delete", 0, 0, 1),
        Err(StoreError::IncompatiblePragma("journal_mode"))
    );
    assert_eq!(
        verify_pragmas("wal", 1, 0, 1),
        Err(StoreError::IncompatiblePragma("synchronous"))
    );
    assert_eq!(
        verify_pragmas("wal", 2, 0, 1),
        Err(StoreError::IncompatiblePragma("foreign_keys"))
    );
    assert_eq!(
        verify_pragmas("wal", 2, 1, 1),
        Err(StoreError::IncompatiblePragma("trusted_schema"))
    );
}

#[test]
fn integers_cross_the_column_boundary() {
    assert_eq!(to_sql_integer(0), Ok(0));
    assert_eq!(to_sql_integer(9223372036854775807), Ok(i64::MAX));
    assert_eq!(
        to_sql_integer(9223372036854775808),
        Err(StoreError::CorruptData("integer exceeds SQLite range"))
    );
    assert_eq!(from_sql_integer(i64::MAX), Ok(9223372036854775807));
    assert_eq!(from_sql_integer(0), Ok(0));
    assert_eq!(
        from_sql_integer(-1),
        Err(StoreError::CorruptData("negative SQLite integer"))
    );
}
