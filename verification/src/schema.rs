use vstd::prelude::*;

use crate::text::{contains_seq, contains_str, str_equals};

verus! {

/// Whether a `users` table with these column names still lacks `api_key`.
pub fn needs_api_key_column(columns: &Vec<String>) -> (b: bool)
    ensures
        b == !(exists|i: int| 0 <= i < columns@.len() && #[trigger] columns@[i]@ == "api_key"@),
{
    let mut i: usize = 0;
    while i < columns.len()
        invariant
            0 <= i <= columns@.len(),
            forall|j: int| 0 <= j < i ==> #[trigger] columns@[j]@ != "api_key"@,
        decreases columns@.len() - i,
    {
        if str_equals(columns[i].as_str(), "api_key") {
            return false;
        }
        i += 1;
    }
    true
}

/// Whether the stored `CREATE TABLE` text of `images` still makes `sha256` unique
/// across all users, so that the table must be rebuilt to let users share files.
pub fn images_table_needs_rebuild(sql: Option<&str>) -> (b: bool)
    ensures
        b == match sql {
            Some(s) => contains_seq(s@, "sha256 TEXT NOT NULL UNIQUE"@),
            None => false,
        },
{
    match sql {
        Some(s) => contains_str(s, "sha256 TEXT NOT NULL UNIQUE"),
        None => false,
    }
}

} // verus!
