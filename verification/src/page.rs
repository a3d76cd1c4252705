//! Pagination results.
use vstd::prelude::*;

use crate::value::Value;

verus! {

/// One page of results.
///
/// `has_next` is computed by fetching one row more than requested and then
/// discarding it, which is why it is exact rather than a guess derived from
/// `items.len() == limit`.
#[derive(Debug, Clone, PartialEq, Eq)]
pub struct Page<T, C = Value> {
    /// The rows on this page.
    pub items: Vec<T>,
    /// Whether another page exists after this one.
    pub has_next: bool,
    /// The cursor to pass to fetch the next page, if any.
    pub next_cursor: Option<C>,
}

impl<T, C> Page<T, C> {
    /// Creates a page.
    pub fn new(items: Vec<T>, has_next: bool, next_cursor: Option<C>) -> (r: Self)
        ensures
            r.items@ == items@,
            r.has_next == has_next,
            r.next_cursor == next_cursor,
    {
        Page { items, has_next, next_cursor }
    }

    /// The page made from rows fetched with a limit one above `size`:
    /// another page exists exactly when more than `size` rows came back,
    /// and the extra row is dropped.
    pub fn from_overfetch(items: Vec<T>, size: u64) -> (r: Self)
        ensures
            r.has_next == (items@.len() > size),
            r.has_next ==> r.items@ == items@.take(size as int),
            !r.has_next ==> r.items@ == items@,
            r.next_cursor is None,
    {
        let mut items = items;
        let has_next = items.len() as u64 > size;
        if has_next {
            items.truncate(size as usize);
        }
        Page { items, has_next, next_cursor: None }
    }

    /// Number of rows on this page.
    pub fn len(&self) -> (r: usize)
        ensures
            r == self.items@.len(),
    {
        self.items.len()
    }

    /// Whether this page has no rows.
    pub fn is_empty(&self) -> (r: bool)
        ensures
            r == (self.items@.len() == 0),
    {
        self.items.len() == 0
    }
}

} // verus!
