//! Join kinds, join conditions and join result types.
use vstd::prelude::*;

use crate::col::Column;
use crate::filter::{CmpOp, Filter, FilterNode};

verus! {

/// Which side of a join to perform.
#[derive(Debug, Clone, Copy, PartialEq, Eq)]
pub enum JoinKind {
    /// `INNER JOIN`.
    Inner,
    /// `LEFT JOIN`.
    Left,
    /// `RIGHT JOIN`.
    Right,
    /// `FULL JOIN`.
    Full,
}

/// A join condition: a filter node over the columns of both sides.
#[derive(Debug, PartialEq)]
pub struct JoinOn {
    pub(crate) node: FilterNode,
}

impl JoinOn {
    /// The condition.
    pub closed spec fn spec_node(&self) -> FilterNode {
        self.node
    }

    /// The condition, taken out of the wrapper.
    pub fn into_node(self) -> (r: FilterNode)
        ensures
            r == self.spec_node(),
    {
        self.node
    }

    /// Create a join condition that equates two typed columns.
    pub fn new<M, J, T>(left: Column<M, T>, right: Column<J, T>) -> (r: Self)
        ensures
            r.spec_node() == (FilterNode::ColumnCmp {
                left_table: left.table,
                left_col: left.column,
                op: CmpOp::Eq,
                right_table: right.table,
                right_col: right.column,
            }),
    {
        JoinOn {
            node: FilterNode::ColumnCmp {
                left_table: left.table,
                left_col: left.column,
                op: CmpOp::Eq,
                right_table: right.table,
                right_col: right.column,
            },
        }
    }

    /// Combine two join conditions with `AND`.
    pub fn and(self, other: JoinOn) -> (r: Self)
        ensures
            r.spec_node() matches FilterNode::And(v) && v@ == seq![self.spec_node(), other.spec_node()],
    {
        let mut v = Vec::new();
        v.push(self.node);
        v.push(other.node);
        proof {
            assert(v@ =~= seq![self.spec_node(), other.spec_node()]);
        }
        JoinOn { node: FilterNode::And(v) }
    }

    /// Combine two join conditions with `OR`.
    pub fn or(self, other: JoinOn) -> (r: Self)
        ensures
            r.spec_node() matches FilterNode::Or(v) && v@ == seq![self.spec_node(), other.spec_node()],
    {
        let mut v = Vec::new();
        v.push(self.node);
        v.push(other.node);
        proof {
            assert(v@ =~= seq![self.spec_node(), other.spec_node()]);
        }
        JoinOn { node: FilterNode::Or(v) }
    }

    /// A join condition made of any filter.
    pub fn from_filter<M>(f: Filter<M>) -> (r: Self)
        ensures
            r.spec_node() == f.node,
    {
        JoinOn { node: f.node }
    }
}

/// Newtype around `Option<B>` for the right-hand side of an outer join.
#[derive(Debug, Clone, PartialEq, Eq)]
pub struct Maybe<B>(pub Option<B>);

impl<B> Maybe<B> {
    /// Returns `true` if the right-hand side was not present.
    pub fn is_none(&self) -> (r: bool)
        ensures
            r == (self.0 is None),
    {
        self.0.is_none()
    }

    /// Returns `true` if the right-hand side was present.
    pub fn is_some(&self) -> (r: bool)
        ensures
            r == (self.0 is Some),
    {
        self.0.is_some()
    }

    /// Returns a reference to the inner value, if any.
    pub fn as_ref(&self) -> (r: Option<&B>)
        ensures
            r == match self.0 {
                Some(b) => Some(&b),
                None => None::<&B>,
            },
    {
        match &self.0 {
            Some(b) => Some(b),
            None => None,
        }
    }

    /// Unwraps the inner value; the value must be present.
    pub fn unwrap(self) -> (r: B)
        requires
            self.0 is Some,
        ensures
            Some(r) == self.0,
    {
        self.0.unwrap()
    }

    /// The inner option.
    pub fn into_option(self) -> (r: Option<B>)
        ensures
            r == self.0,
    {
        self.0
    }
}

impl<B> From<Option<B>> for Maybe<B> {
    fn from(o: Option<B>) -> (r: Self) {
        Maybe(o)
    }
}

impl<B> vstd::std_specs::convert::FromSpecImpl<Option<B>> for Maybe<B> {
    open spec fn obeys_from_spec() -> bool {
        true
    }

    open spec fn from_spec(v: Option<B>) -> Self {
        Maybe(v)
    }
}

/// Result of an inner join: `(A, B)`.
#[derive(Debug, Clone, PartialEq, Eq)]
pub struct Join2<A, B>(pub A, pub B);

/// Result of a left (or right/full) outer join: `(A, Option<B>)`.
#[derive(Debug, Clone, PartialEq, Eq)]
pub struct LeftJoin2<A, B>(pub A, pub Maybe<B>);

impl<A, B> Join2<A, B> {
    /// The pair of joined rows.
    pub fn into_pair(self) -> (r: (A, B))
        ensures
            r == (self.0, self.1),
    {
        (self.0, self.1)
    }
}

impl<A, B> LeftJoin2<A, B> {
    /// The left row and the optional right row.
    pub fn into_pair(self) -> (r: (A, Option<B>))
        ensures
            r == (self.0, self.1.0),
    {
        (self.0, self.1.0)
    }
}

} // verus!
