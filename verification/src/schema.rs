//! The version of the stored tables.
use vstd::prelude::*;
use crate::text::{opt_str, parse_i64, parsed_i64};

verus! {

/// The version that the program writes.
pub const SCHEMA_VERSION: i64 = 2;

/// The version of stored tables: what they say, and 0 where they say nothing that
/// is a number.
pub open spec fn stored_version(has_meta: bool, value: Option<Seq<char>>) -> int {
    if !has_meta {
        0
    } else {
        match value {
            Some(v) => match parsed_i64(v) {
                Some(n) => n,
                None => 0,
            },
            None => 0,
        }
    }
}

/// Reads the version of stored tables.
pub fn read_schema_version(has_meta: bool, value: Option<&str>) -> (n: i64)
    ensures
        n == stored_version(has_meta, opt_str(value)),
{
    if !has_meta {
        return 0;
    }
    match value {
        Some(v) => match parse_i64(v) {
            Some(n) => n,
            None => 0,
        },
        None => 0,
    }
}

/// Must the tables be made anew?
pub fn needs_migration(version: i64) -> (r: bool)
    ensures
        r == (version < 2),
{
    version < SCHEMA_VERSION
}

} // verus!
