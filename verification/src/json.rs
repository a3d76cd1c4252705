//! JSON paths and typed JSON column tokens.
use std::marker::PhantomData;

use vstd::prelude::*;

use crate::order::OrderBy;

verus! {

/// A single step in a JSON path.
#[derive(Debug, Clone, Copy, PartialEq, Eq)]
pub enum JsonPathSegment {
    /// Object key.
    Key(&'static str),
    /// Array index.
    Index(usize),
}

/// A sequence of JSON path segments.
#[derive(Debug, PartialEq, Eq, Default)]
pub struct JsonPath(pub Vec<JsonPathSegment>);

/// A copy of a segment list.
pub fn copy_segments(v: &Vec<JsonPathSegment>) -> (r: Vec<JsonPathSegment>)
    ensures
        r@ == v@,
{
    let mut out: Vec<JsonPathSegment> = Vec::new();
    let mut i: usize = 0;
    while i < v.len()
        invariant
            i <= v@.len(),
            out@ == v@.take(i as int),
        decreases v@.len() - i,
    {
        out.push(v[i]);
        proof {
            assert(v@.take(i + 1) =~= v@.take(i as int).push(v@[i as int]));
        }
        i = i + 1;
    }
    proof {
        assert(v@.take(v@.len() as int) =~= v@);
    }
    out
}

impl Clone for JsonPath {
    fn clone(&self) -> (r: Self)
        ensures
            r.0@ == self.0@,
    {
        JsonPath(copy_segments(&self.0))
    }
}

impl JsonPath {
    /// Creates a path from its segments.
    pub fn new(segments: Vec<JsonPathSegment>) -> (r: Self)
        ensures
            r.0@ == segments@,
    {
        JsonPath(segments)
    }

    /// Creates a one-segment key path.
    pub fn key(key: &'static str) -> (r: Self)
        ensures
            r.0@ == seq![JsonPathSegment::Key(key)],
    {
        let mut v = Vec::new();
        v.push(JsonPathSegment::Key(key));
        JsonPath(v)
    }
}

/// A typed token for a JSON extraction expression.
#[derive(Debug, PartialEq)]
pub struct JsonColumn<M, T> {
    /// The SQL table name.
    pub table: &'static str,
    /// The SQL column name.
    pub column: &'static str,
    /// The JSON path inside the column.
    pub path: JsonPath,
    /// `true` for text extraction (`->>`/`#>>`), `false` for JSON (`->`/`#>`).
    pub text: bool,
    /// Ties the token to its model and value type.
    pub _marker: PhantomData<(M, T)>,
}

/// Marker for the JSON document type of a JSON column.
#[derive(Debug, Clone, Copy, PartialEq, Eq)]
pub struct Json;

impl<M> JsonColumn<M, Json> {
    /// Append an object-key segment and keep JSON extraction.
    pub fn get(self, key: &'static str) -> (r: JsonColumn<M, Json>)
        ensures
            r.table == self.table,
            r.column == self.column,
            r.path.0@ == self.path.0@.push(JsonPathSegment::Key(key)),
            r.text == self.text,
    {
        let mut path = self.path;
        path.0.push(JsonPathSegment::Key(key));
        JsonColumn { table: self.table, column: self.column, path, text: self.text, _marker: PhantomData }
    }

    /// Append an object-key segment and switch to text extraction.
    pub fn get_text(self, key: &'static str) -> (r: JsonColumn<M, String>)
        ensures
            r.table == self.table,
            r.column == self.column,
            r.path.0@ == self.path.0@.push(JsonPathSegment::Key(key)),
            r.text,
    {
        let mut path = self.path;
        path.0.push(JsonPathSegment::Key(key));
        JsonColumn { table: self.table, column: self.column, path, text: true, _marker: PhantomData }
    }

    /// Append an array-index segment and keep JSON extraction.
    pub fn at(self, index: usize) -> (r: JsonColumn<M, Json>)
        ensures
            r.table == self.table,
            r.column == self.column,
            r.path.0@ == self.path.0@.push(JsonPathSegment::Index(index)),
            r.text == self.text,
    {
        let mut path = self.path;
        path.0.push(JsonPathSegment::Index(index));
        JsonColumn { table: self.table, column: self.column, path, text: self.text, _marker: PhantomData }
    }
}

impl<M, T> JsonColumn<M, T> {
    /// `ORDER BY json_expr ASC`.
    pub fn asc(&self) -> (r: OrderBy<M>)
        ensures
            r.table == self.table,
            r.column == self.column,
            !r.desc,
            r.json_path matches Some(p) && p.0@ == self.path.0@,
            r.text == self.text,
    {
        OrderBy {
            table: self.table,
            column: self.column,
            desc: false,
            json_path: Some(self.path.clone()),
            text: self.text,
            _marker: PhantomData,
        }
    }

    /// `ORDER BY json_expr DESC`.
    pub fn desc(&self) -> (r: OrderBy<M>)
        ensures
            r.table == self.table,
            r.column == self.column,
            r.desc,
            r.json_path matches Some(p) && p.0@ == self.path.0@,
            r.text == self.text,
    {
        OrderBy {
            table: self.table,
            column: self.column,
            desc: true,
            json_path: Some(self.path.clone()),
            text: self.text,
            _marker: PhantomData,
        }
    }
}

} // verus!
