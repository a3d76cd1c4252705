//! Typed aggregate expressions.
//!
//! Aggregates are built from [`Column`] tokens and carry the return type at the
//! type level, so `User::age.sum()` has type `Aggregate<User, Option<i64>>` when
//! `age` is an `Int` and `User::id.count()` has type `Aggregate<User, i64>`.
use std::marker::PhantomData;

use vstd::prelude::*;

use crate::col::Column;

verus! {

/// Kinds of aggregate functions.
#[derive(Debug, Clone, Copy, PartialEq, Eq)]
pub enum AggregateKind {
    /// `SUM(...)`.
    Sum,
    /// `AVG(...)`.
    Avg,
    /// `MIN(...)`.
    Min,
    /// `MAX(...)`.
    Max,
    /// `COUNT(...)`.
    Count,
    /// `COUNT(DISTINCT ...)`.
    CountDistinct,
}

/// The lower-case name of an aggregate kind, used in aliases.
pub open spec fn kind_name(k: AggregateKind) -> Seq<char> {
    match k {
        AggregateKind::Sum => "sum"@,
        AggregateKind::Avg => "avg"@,
        AggregateKind::Min => "min"@,
        AggregateKind::Max => "max"@,
        AggregateKind::Count => "count"@,
        AggregateKind::CountDistinct => "count_distinct"@,
    }
}

/// The SQL function an aggregate kind emits.
pub open spec fn kind_sql(k: AggregateKind) -> Seq<char> {
    match k {
        AggregateKind::Sum => "SUM"@,
        AggregateKind::Avg => "AVG"@,
        AggregateKind::Min => "MIN"@,
        AggregateKind::Max => "MAX"@,
        AggregateKind::Count => "COUNT"@,
        AggregateKind::CountDistinct => "COUNT"@,
    }
}

impl AggregateKind {
    /// The name used in aliases.
    pub fn as_str(&self) -> (r: &'static str)
        ensures
            r@ == kind_name(*self),
    {
        match self {
            AggregateKind::Sum => "sum",
            AggregateKind::Avg => "avg",
            AggregateKind::Min => "min",
            AggregateKind::Max => "max",
            AggregateKind::Count => "count",
            AggregateKind::CountDistinct => "count_distinct",
        }
    }

    /// The SQL function name for emission.
    pub fn sql_fn(&self) -> (r: &'static str)
        ensures
            r@ == kind_sql(*self),
    {
        match self {
            AggregateKind::Sum => "SUM",
            AggregateKind::Avg => "AVG",
            AggregateKind::Min => "MIN",
            AggregateKind::Max => "MAX",
            AggregateKind::Count => "COUNT",
            AggregateKind::CountDistinct => "COUNT",
        }
    }
}

/// The alias an aggregate of `kind` over `column` is given: `kind_column`.
pub open spec fn alias_text(kind: AggregateKind, column: Seq<char>) -> Seq<char> {
    kind_name(kind) + "_"@ + column
}

/// A typed aggregate expression for a model `M` with return type `R`.
#[derive(Debug, PartialEq, Eq)]
pub struct Aggregate<M, R> {
    pub(crate) table: &'static str,
    pub(crate) column: &'static str,
    pub(crate) kind: AggregateKind,
    pub(crate) _marker: PhantomData<(M, R)>,
}

impl<M, R> Aggregate<M, R> {
    /// An aggregate of `kind` over `table.column`.
    pub fn new(table: &'static str, column: &'static str, kind: AggregateKind) -> (r: Self)
        ensures
            r.spec_table() == table,
            r.spec_column() == column,
            r.spec_kind() == kind,
    {
        Aggregate { table, column, kind, _marker: PhantomData }
    }

    /// The table.
    pub closed spec fn spec_table(&self) -> &'static str {
        self.table
    }

    /// The column.
    pub closed spec fn spec_column(&self) -> &'static str {
        self.column
    }

    /// The aggregate function.
    pub closed spec fn spec_kind(&self) -> AggregateKind {
        self.kind
    }

    /// The aggregate function.
    pub fn kind(&self) -> (r: AggregateKind)
        ensures
            r == self.spec_kind(),
    {
        self.kind
    }

    /// Returns the SQL alias this aggregate should use in the projection.
    pub fn alias(&self) -> (r: String)
        ensures
            r@ == alias_text(self.spec_kind(), self.spec_column()@),
    {
        let mut out = String::from_str(self.kind.as_str());
        out.append("_");
        out.append(self.column);
        out
    }

    /// The projection entry this aggregate compiles to.
    pub fn entry(&self) -> (r: AggregateEntry)
        ensures
            r.table == self.spec_table(),
            r.column == self.spec_column(),
            r.kind == self.spec_kind(),
            r.alias@ == alias_text(self.spec_kind(), self.spec_column()@),
    {
        AggregateEntry { table: self.table, column: self.column, kind: self.kind, alias: self.alias() }
    }
}

/// One aggregate expression in a projection, with its alias.
#[derive(Debug, PartialEq, Eq)]
pub struct AggregateEntry {
    /// The SQL table name.
    pub table: &'static str,
    /// The SQL column name.
    pub column: &'static str,
    /// The aggregate function.
    pub kind: AggregateKind,
    /// The projection alias.
    pub alias: String,
}

/// Marker trait for scalar types that can appear in numeric aggregates.
pub trait Numeric {
    /// The Rust type returned by `SUM` over this column.
    type Sum;
    /// The Rust type returned by `AVG` over this column.
    type Avg;
    /// The Rust type returned by `MIN` / `MAX` over this column.
    type MinMax;
}

impl Numeric for i32 {
    type Sum = i64;
    type Avg = crate::value::Double;
    type MinMax = i32;
}

impl Numeric for i64 {
    type Sum = i64;
    type Avg = crate::value::Double;
    type MinMax = i64;
}

impl<T: Numeric> Numeric for Option<T> {
    type Sum = Option<T::Sum>;
    type Avg = Option<T::Avg>;
    type MinMax = Option<T::MinMax>;
}

impl<M, T: Numeric> Column<M, T> {
    /// `SUM(column)`.
    pub fn sum(self) -> (r: Aggregate<M, Option<T::Sum>>)
        ensures
            r.spec_table() == self.table,
            r.spec_column() == self.column,
            r.spec_kind() == AggregateKind::Sum,
    {
        Aggregate::new(self.table, self.column, AggregateKind::Sum)
    }

    /// `AVG(column)`.
    pub fn avg(self) -> (r: Aggregate<M, Option<T::Avg>>)
        ensures
            r.spec_table() == self.table,
            r.spec_column() == self.column,
            r.spec_kind() == AggregateKind::Avg,
    {
        Aggregate::new(self.table, self.column, AggregateKind::Avg)
    }

    /// `MIN(column)`.
    pub fn min(self) -> (r: Aggregate<M, Option<T::MinMax>>)
        ensures
            r.spec_table() == self.table,
            r.spec_column() == self.column,
            r.spec_kind() == AggregateKind::Min,
    {
        Aggregate::new(self.table, self.column, AggregateKind::Min)
    }

    /// `MAX(column)`.
    pub fn max(self) -> (r: Aggregate<M, Option<T::MinMax>>)
        ensures
            r.spec_table() == self.table,
            r.spec_column() == self.column,
            r.spec_kind() == AggregateKind::Max,
    {
        Aggregate::new(self.table, self.column, AggregateKind::Max)
    }
}

impl<M, T> Column<M, T> {
    /// `COUNT(column)`.
    pub fn count(self) -> (r: Aggregate<M, i64>)
        ensures
            r.spec_table() == self.table,
            r.spec_column() == self.column,
            r.spec_kind() == AggregateKind::Count,
    {
        Aggregate::new(self.table, self.column, AggregateKind::Count)
    }

    /// `COUNT(DISTINCT column)`.
    pub fn count_distinct(self) -> (r: Aggregate<M, i64>)
        ensures
            r.spec_table() == self.table,
            r.spec_column() == self.column,
            r.spec_kind() == AggregateKind::CountDistinct,
    {
        Aggregate::new(self.table, self.column, AggregateKind::CountDistinct)
    }
}

} // verus!
