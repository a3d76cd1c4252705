//! The ruprizzle runtime: typed columns, filters and the SQL compiler that
//! turns them into parameterised statements.
pub mod aggregate;
pub mod assoc;
pub mod cache;
pub mod col;
pub mod compile;
pub mod dialect;
pub mod eager;
pub mod error;
pub mod filter;
pub mod hierarchy;
pub mod loader;
pub mod m2m;
pub mod manifest;
pub mod join;
pub mod json;
pub mod metrics;
pub mod model;
pub mod nested;
pub mod numbering;
pub mod offset_row;
pub mod order;
pub mod page;
pub mod pool;
pub mod query;
pub mod rel;
pub mod related;
pub mod text;
pub mod tx;
pub mod value;
pub mod write;
