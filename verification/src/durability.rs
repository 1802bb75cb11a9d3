//! The settings that a database has to keep for its commits to last.

use vstd::prelude::*;

use crate::error::StoreError;

verus! {

/// The text is `wal`, whatever the case of its letters.
pub open spec fn is_wal(mode: Seq<char>) -> bool {
    &&& mode.len() == 3
    &&& (mode[0] == 'w' || mode[0] == 'W')
    &&& (mode[1] == 'a' || mode[1] == 'A')
    &&& (mode[2] == 'l' || mode[2] == 'L')
}

fn names_wal(mode: &str) -> (wal: bool)
    ensures
        wal == is_wal(mode@),
{
    if mode.unicode_len() != 3 {
        return false;
    }
    let w = mode.get_char(0);
    let a = mode.get_char(1);
    let l = mode.get_char(2);
    (w == 'w' || w == 'W') && (a == 'a' || a == 'A') && (l == 'l' || l == 'L')
}

/// The first setting that breaks the durability contract.
pub open spec fn broken_pragma(
    journal_mode: Seq<char>,
    synchronous: i64,
    foreign_keys: i64,
    trusted_schema: i64,
) -> Option<&'static str> {
    if !is_wal(journal_mode) {
        Some("journal_mode")
    } else if synchronous != 2 {
        Some("synchronous")
    } else if foreign_keys != 1 {
        Some("foreign_keys")
    } else if trusted_schema != 0 {
        Some("trusted_schema")
    } else {
        None
    }
}

/// Checks the settings that a database reports: a write-ahead log, full synchronisation,
/// enforced foreign keys and an untrusted schema.
pub fn verify_pragmas(
    journal_mode: &str,
    synchronous: i64,
    foreign_keys: i64,
    trusted_schema: i64,
) -> (verdict: Result<(), StoreError>)
    ensures
        verdict == (match broken_pragma(
            journal_mode@,
            synchronous,
            foreign_keys,
            trusted_schema,
        ) {
            Some(name) => Err(StoreError::IncompatiblePragma(name)),
            None => Ok(()),
        }),
{
    if !names_wal(journal_mode) {
        return Err(StoreError::IncompatiblePragma("journal_mode"));
    }
    if synchronous != 2 {
        return Err(StoreError::IncompatiblePragma("synchronous"));
    }
    if foreign_keys != 1 {
        return Err(StoreError::IncompatiblePragma("foreign_keys"));
    }
    if trusted_schema != 0 {
        return Err(StoreError::IncompatiblePragma("trusted_schema"));
    }
    Ok(())
}

} // verus!
