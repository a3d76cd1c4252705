//! Entries of the query manifest, a record of the statements a program
//! compiles, kept for offline checking.
use vstd::prelude::*;

use crate::dialect::{dialect_name, Dialect};

verus! {

/// One captured query.
#[derive(Debug, Clone)]
pub struct QueryEntry {
    /// SQL with placeholders.
    pub sql: String,
    /// Source file, if recorded.
    pub source: Option<&'static str>,
    /// Source line, if recorded.
    pub line: Option<u32>,
    /// Name of the dialect the query was compiled for.
    pub dialect: String,
}

impl QueryEntry {
    /// The entry for `sql`, compiled for `dialect` at `source`:`line`.
    pub fn new(sql: String, source: Option<&'static str>, line: Option<u32>, dialect: Dialect) -> (r: Self)
        ensures
            r.sql@ == sql@,
            r.source == source,
            r.line == line,
            r.dialect@ == dialect_name(dialect),
    {
        let mut name = String::new();
        name.append(dialect.name());
        QueryEntry { sql, source, line, dialect: name }
    }
}

} // verus!
