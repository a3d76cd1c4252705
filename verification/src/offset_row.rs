//! Shifted view into a result row.
use vstd::prelude::*;

verus! {

/// A view into a row where column `0` is the column at `offset` of the
/// original row, spanning `len` columns.
#[derive(Debug)]
pub struct OffsetRow<'r, R> {
    row: &'r R,
    offset: usize,
    len: usize,
}

impl<'r, R> OffsetRow<'r, R> {
    /// The underlying row.
    pub closed spec fn spec_row(&self) -> &'r R {
        self.row
    }

    /// Where the view begins in the underlying row.
    pub closed spec fn spec_offset(&self) -> usize {
        self.offset
    }

    /// How many columns the view spans.
    pub closed spec fn spec_len(&self) -> usize {
        self.len
    }

    /// Create a new offset view of `row` starting at `offset` and spanning `len`
    /// columns.
    pub fn new(row: &'r R, offset: usize, len: usize) -> (r: Self)
        ensures
            r.spec_row() == row,
            r.spec_offset() == offset,
            r.spec_len() == len,
    {
        OffsetRow { row, offset, len }
    }

    /// The number of columns visible in this view.
    pub fn len(&self) -> (r: usize)
        ensures
            r == self.spec_len(),
    {
        self.len
    }

    /// Whether the view contains no columns.
    pub fn is_empty(&self) -> (r: bool)
        ensures
            r == (self.spec_len() == 0),
    {
        self.len == 0
    }

    /// The offset into the underlying row where this view begins.
    pub fn offset(&self) -> (r: usize)
        ensures
            r == self.spec_offset(),
    {
        self.offset
    }

    /// The underlying row that this view indexes into.
    pub fn as_raw(&self) -> (r: &'r R)
        ensures
            r == self.spec_row(),
    {
        self.row
    }

    /// The underlying column of view column `index`, if the view has it.
    pub fn column_index(&self, index: usize) -> (r: Option<usize>)
        ensures
            r == if index < self.spec_len() && self.spec_offset() + index <= usize::MAX {
                Some((self.spec_offset() + index) as usize)
            } else {
                None
            },
    {
        if index < self.len && index <= usize::MAX - self.offset {
            Some(self.offset + index)
        } else {
            None
        }
    }

    /// The view column of underlying column `ordinal`, if it falls inside the view.
    pub fn view_index(&self, ordinal: usize) -> (r: Option<usize>)
        ensures
            r == if self.spec_offset() <= ordinal < self.spec_offset() + self.spec_len() {
                Some((ordinal - self.spec_offset()) as usize)
            } else {
                None
            },
    {
        if ordinal < self.offset {
            None
        } else if ordinal - self.offset >= self.len {
            None
        } else {
            Some(ordinal - self.offset)
        }
    }
}

} // verus!
