//! The trait generated entity types implement.
use vstd::prelude::*;

verus! {

/// A generated entity type.
pub trait Model {
    /// The table this model maps to.
    const TABLE: &'static str;

    /// The primary-key column.
    ///
    /// Partitioned selects order by it when no other order is given, so the
    /// rows each partition keeps are deterministic.
    const PRIMARY_KEY: &'static str;

    /// The physical columns of this model, in the order the row decoder
    /// expects them. An empty slice keeps the `SELECT *` behaviour.
    const COLUMNS: &'static [&'static str];

    /// The soft-delete timestamp column, if the model has one.
    ///
    /// Selects on such a model skip rows where it is set, unless the query
    /// asks for deleted rows too or for them alone.
    const DELETED_AT_COLUMN: Option<&'static str>;
}

} // verus!
