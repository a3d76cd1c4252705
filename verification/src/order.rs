//! Order-by tokens.
use std::marker::PhantomData;

use vstd::prelude::*;

use crate::json::JsonPath;

verus! {

/// A typed order-by clause.
#[derive(Debug, PartialEq, Eq)]
pub struct OrderBy<M> {
    /// The SQL table name.
    pub table: &'static str,
    /// The SQL column name.
    pub column: &'static str,
    /// `true` for `DESC`, `false` for `ASC`.
    pub desc: bool,
    /// Optional JSON path for ordering inside a JSON column.
    pub json_path: Option<JsonPath>,
    /// `true` for text extraction, `false` for JSON.
    pub text: bool,
    /// Ties the clause to its model.
    pub _marker: PhantomData<M>,
}

impl<M> Clone for OrderBy<M> {
    fn clone(&self) -> (r: Self)
        ensures
            r.table == self.table,
            r.column == self.column,
            r.desc == self.desc,
            r.text == self.text,
            r.json_path is Some <==> self.json_path is Some,
    {
        let json_path = match &self.json_path {
            Some(p) => Some(p.clone()),
            None => None,
        };
        OrderBy {
            table: self.table,
            column: self.column,
            desc: self.desc,
            json_path,
            text: self.text,
            _marker: PhantomData,
        }
    }
}

impl<M> OrderBy<M> {
    /// Creates a new order-by token.
    pub fn new(table: &'static str, column: &'static str, desc: bool) -> (r: Self)
        ensures
            r.table == table,
            r.column == column,
            r.desc == desc,
            r.json_path is None,
            !r.text,
    {
        OrderBy { table, column, desc, json_path: None, text: false, _marker: PhantomData }
    }
}

} // verus!
