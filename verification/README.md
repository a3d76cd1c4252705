# ruprizzle

The runtime of a typed query builder for SQL databases, written in Verus.

`src/` is the verified library. Typed columns and filters (`col`, `filter`,
`json`, `aggregate`, `order`, `join`) are compiled by `compile` into
parameterised statements for PostgreSQL, SQLite or MySQL (`dialect`): no user
value is ever spliced into the text, every one becomes a placeholder whose
bind is listed in order (`numbering` proves that the `$n` markers run
`$k+1`, `$k+2`, ... in bind order). The builders in `query` (selects, CTEs, set
operations, aggregates, soft-delete filtering) and `write` (inserts, upserts,
multi-row inserts, guarded updates and deletes with cascade plans) state the
exact text and binds they produce. Relation writes (`nested`, `rel`, `m2m`)
and relation loads (`loader`, with the relation descriptions of `eager`) are
planned as statements and groupings that a driver carries out. `cache` is a tag-indexed query cache with capacity and
time-to-live; `error` and `tx` classify database errors and retry decisions;
`pool` holds pool configuration, URL routing and replica selection (with a
round-robin router);
`hierarchy` compiles recursive tree queries and holds reconstructed trees.

`app/` is the ordinary Rust around it: running statements and plans through
`sqlx`, a printable error type, serde copies of the data types, and the
geospatial types, whose coordinates are floating point.

`tests/` exercises the library on concrete inputs.
