//! Relation descriptions for eager loading: which child column matches the
//! parent key, with the relation's own filter, order and per-parent limit.
//!
//! A description plans the statements that read the children of a batch of
//! parents (see [`crate::loader`]) and hands the fetched children back to
//! their parents by key. Running the statements is left to the caller.
use vstd::prelude::*;

use std::marker::PhantomData;

use crate::col::Column;
use crate::compile::CompiledSql;
use crate::dialect::Dialect;
use crate::filter::{flat_children, is_trivial, Filter, FilterNode};
use crate::loader::{
    at_most, child_fetch_statements, chunk_len, fetch_ok, fetch_plan, first_children, first_seen, full_table_fast_path,
    group_children, group_through, index_seq, join_row_order, join_row_statements, linked_children, nested_full_table,
    no_filter, positions_of,
};
use crate::model::Model;
use crate::order::OrderBy;
use crate::value::{views_of, Value};

verus! {

/// A filter that keeps every row.
fn keep_all<C>() -> (r: Filter<C>)
    ensures
        is_trivial(r.node),
{
    Filter::new(FilterNode::And(Vec::new()))
}

/// A one-to-many relation: each parent has the children of `C` whose
/// `child_key` equals its key.
pub struct IncludeList<M, C> {
    /// The child column that matches the parent key.
    pub child_key: &'static str,
    /// Extra filter on the child rows.
    pub filter: Filter<C>,
    /// Ordering of the child rows.
    pub order: Vec<OrderBy<C>>,
    /// Per-parent limit (`take`).
    pub limit: Option<u64>,
    /// Ties the relation to its parent model.
    pub _marker: PhantomData<M>,
}

/// A many-to-one or one-to-one relation: each parent has the first child of
/// `C` whose `child_key` equals its key.
pub struct IncludeOne<M, C> {
    /// The child column that matches the parent key.
    pub child_key: &'static str,
    /// Extra filter on the child rows.
    pub filter: Filter<C>,
    /// Ordering of the child rows.
    pub order: Vec<OrderBy<C>>,
    /// Limit on the child rows of each parent.
    pub limit: Option<u64>,
    /// Ties the relation to its parent model.
    pub _marker: PhantomData<M>,
}

/// A many-to-many relation through the join model `J`: each parent has the
/// targets of `C` named by the join rows whose owner is its key.
pub struct IncludeMany<M, C, J> {
    /// The join column that stores the parent key.
    pub join_owner_col: &'static str,
    /// The join column that stores the target key.
    pub join_target_col: &'static str,
    /// The target's key column.
    pub target_pk: &'static str,
    /// Extra filter on the target rows.
    pub filter: Filter<C>,
    /// Ordering of the target rows.
    pub order: Vec<OrderBy<C>>,
    /// Per-parent limit (`take`).
    pub limit: Option<u64>,
    /// Ties the relation to its parent and join models.
    pub _marker: PhantomData<(M, J)>,
}

impl<M: Model, C: Model> IncludeList<M, C> {
    /// A relation on `child_key`, with no filter, order or limit.
    pub fn new<K>(child_key: Column<C, K>) -> (r: Self)
        ensures
            r.child_key == child_key.column,
            is_trivial(r.filter.node),
            r.order@.len() == 0,
            r.limit is None,
    {
        IncludeList { child_key: child_key.column, filter: keep_all(), order: Vec::new(), limit: None, _marker: PhantomData }
    }

    /// Adds `f` to the filter on the child rows (`AND`).
    pub fn filter(self, f: Filter<C>) -> (r: Self)
        ensures
            r.filter.node matches FilterNode::And(v) && v@ == flat_children(seq![self.filter.node, f.node], true),
            r.child_key == self.child_key,
            r.order@ == self.order@,
            r.limit == self.limit,
    {
        IncludeList { filter: self.filter.and(f), ..self }
    }

    /// Appends `o` to the ordering of the child rows.
    pub fn order_by(self, o: OrderBy<C>) -> (r: Self)
        ensures
            r.order@ == self.order@.push(o),
            r.child_key == self.child_key,
            r.filter == self.filter,
            r.limit == self.limit,
    {
        let mut s = self;
        s.order.push(o);
        s
    }

    /// Keeps at most `n` children for each parent.
    pub fn take(self, n: u64) -> (r: Self)
        ensures
            r.limit == Some(n),
            r.child_key == self.child_key,
            r.filter == self.filter,
            r.order@ == self.order@,
    {
        IncludeList { limit: Some(n), ..self }
    }

    /// The statements that read the children of the parents with `keys`
    /// (see [`child_fetch_statements`]).
    pub fn statements(&self, dialect: Dialect, keys: &[Value], max_query_params: u32, window_functions: bool) -> (r: Vec<
        CompiledSql,
    >)
        requires
            fetch_ok::<C>(
                dialect,
                self.child_key,
                self.filter.node,
                self.order@,
                self.limit,
                window_functions,
                first_seen(views_of(keys@)),
                chunk_len(max_query_params),
            ),
        ensures
            fetch_plan::<C>(
                dialect,
                self.child_key,
                self.filter.node,
                self.order@,
                self.limit,
                window_functions,
                first_seen(views_of(keys@)),
                chunk_len(max_query_params),
                r@,
            ),
    {
        child_fetch_statements::<C>(
            dialect,
            self.child_key,
            &self.filter.node,
            self.order.as_slice(),
            self.limit,
            keys,
            max_query_params,
            window_functions,
        )
    }

    /// Whether the whole child table may be read instead (see
    /// [`full_table_fast_path`]).
    pub fn reads_whole_table(&self, full_table: bool, full_table_limit: u64) -> (r: bool)
        ensures
            r == (full_table && full_table_limit > 0 && is_trivial(self.filter.node) && self.order@.len() == 0
                && self.limit is None),
    {
        full_table_fast_path(full_table, full_table_limit, &self.filter.node, self.order.len(), self.limit)
    }

    /// Whether the children are a whole table, so that relations loaded on
    /// them may take the fast path too.
    pub fn children_full_table(&self, full_table: bool) -> (r: bool)
        ensures
            r == (full_table && is_trivial(self.filter.node) && self.order@.len() == 0 && self.limit is None),
    {
        nested_full_table(full_table, &self.filter.node, self.order.len(), self.limit)
    }

    /// For each parent key, the positions of its children among the fetched
    /// children's keys, in fetch order.
    pub fn attach(&self, parent_keys: &[Value], child_keys: &[Value]) -> (r: Vec<Vec<usize>>)
        ensures
            r@.len() == parent_keys@.len(),
            forall|i: int|
                0 <= i < r@.len() ==> index_seq(#[trigger] r@[i]@) == positions_of(
                    views_of(child_keys@),
                    parent_keys@[i]@,
                ),
    {
        group_children(parent_keys, child_keys)
    }
}

impl<M: Model, C: Model> IncludeOne<M, C> {
    /// A relation on `child_key`, with no filter, order or limit.
    pub fn new<K>(child_key: Column<C, K>) -> (r: Self)
        ensures
            r.child_key == child_key.column,
            is_trivial(r.filter.node),
            r.order@.len() == 0,
            r.limit is None,
    {
        IncludeOne { child_key: child_key.column, filter: keep_all(), order: Vec::new(), limit: None, _marker: PhantomData }
    }

    /// Adds `f` to the filter on the child rows (`AND`).
    pub fn filter(self, f: Filter<C>) -> (r: Self)
        ensures
            r.filter.node matches FilterNode::And(v) && v@ == flat_children(seq![self.filter.node, f.node], true),
            r.child_key == self.child_key,
            r.order@ == self.order@,
            r.limit == self.limit,
    {
        IncludeOne { filter: self.filter.and(f), ..self }
    }

    /// Appends `o` to the ordering of the child rows.
    pub fn order_by(self, o: OrderBy<C>) -> (r: Self)
        ensures
            r.order@ == self.order@.push(o),
            r.child_key == self.child_key,
            r.filter == self.filter,
            r.limit == self.limit,
    {
        let mut s = self;
        s.order.push(o);
        s
    }

    /// Keeps at most `n` child rows for each parent.
    pub fn take(self, n: u64) -> (r: Self)
        ensures
            r.limit == Some(n),
            r.child_key == self.child_key,
            r.filter == self.filter,
            r.order@ == self.order@,
    {
        IncludeOne { limit: Some(n), ..self }
    }

    /// The statements that read the children of the parents with `keys`
    /// (see [`child_fetch_statements`]).
    pub fn statements(&self, dialect: Dialect, keys: &[Value], max_query_params: u32, window_functions: bool) -> (r: Vec<
        CompiledSql,
    >)
        requires
            fetch_ok::<C>(
                dialect,
                self.child_key,
                self.filter.node,
                self.order@,
                self.limit,
                window_functions,
                first_seen(views_of(keys@)),
                chunk_len(max_query_params),
            ),
        ensures
            fetch_plan::<C>(
                dialect,
                self.child_key,
                self.filter.node,
                self.order@,
                self.limit,
                window_functions,
                first_seen(views_of(keys@)),
                chunk_len(max_query_params),
                r@,
            ),
    {
        child_fetch_statements::<C>(
            dialect,
            self.child_key,
            &self.filter.node,
            self.order.as_slice(),
            self.limit,
            keys,
            max_query_params,
            window_functions,
        )
    }

    /// Whether the whole child table may be read instead (see
    /// [`full_table_fast_path`]).
    pub fn reads_whole_table(&self, full_table: bool, full_table_limit: u64) -> (r: bool)
        ensures
            r == (full_table && full_table_limit > 0 && is_trivial(self.filter.node) && self.order@.len() == 0
                && self.limit is None),
    {
        full_table_fast_path(full_table, full_table_limit, &self.filter.node, self.order.len(), self.limit)
    }

    /// Whether the children are a whole table, so that relations loaded on
    /// them may take the fast path too.
    pub fn children_full_table(&self, full_table: bool) -> (r: bool)
        ensures
            r == (full_table && is_trivial(self.filter.node) && self.order@.len() == 0 && self.limit is None),
    {
        nested_full_table(full_table, &self.filter.node, self.order.len(), self.limit)
    }

    /// For each parent key, the position of the first fetched child with
    /// that key, if any.
    pub fn attach(&self, parent_keys: &[Value], child_keys: &[Value]) -> (r: Vec<Option<usize>>)
        ensures
            r@.len() == parent_keys@.len(),
            forall|i: int|
                0 <= i < r@.len() ==> match #[trigger] r@[i] {
                    Some(j) => positions_of(views_of(child_keys@), parent_keys@[i]@).len() > 0 && j
                        == positions_of(views_of(child_keys@), parent_keys@[i]@)[0],
                    None => positions_of(views_of(child_keys@), parent_keys@[i]@).len() == 0,
                },
    {
        first_children(parent_keys, child_keys)
    }
}

impl<M: Model, C: Model, J: Model> IncludeMany<M, C, J> {
    /// A relation through the join columns `join_owner_col` and
    /// `join_target_col` to the targets' `target_pk`, with no filter, order
    /// or limit.
    pub fn new<K, T>(join_owner_col: Column<J, K>, join_target_col: Column<J, T>, target_pk: Column<C, T>) -> (r: Self)
        ensures
            r.join_owner_col == join_owner_col.column,
            r.join_target_col == join_target_col.column,
            r.target_pk == target_pk.column,
            is_trivial(r.filter.node),
            r.order@.len() == 0,
            r.limit is None,
    {
        IncludeMany {
            join_owner_col: join_owner_col.column,
            join_target_col: join_target_col.column,
            target_pk: target_pk.column,
            filter: keep_all(),
            order: Vec::new(),
            limit: None,
            _marker: PhantomData,
        }
    }

    /// Adds `f` to the filter on the target rows (`AND`).
    pub fn filter(self, f: Filter<C>) -> (r: Self)
        ensures
            r.filter.node matches FilterNode::And(v) && v@ == flat_children(seq![self.filter.node, f.node], true),
            r.join_owner_col == self.join_owner_col,
            r.join_target_col == self.join_target_col,
            r.target_pk == self.target_pk,
            r.order@ == self.order@,
            r.limit == self.limit,
    {
        IncludeMany { filter: self.filter.and(f), ..self }
    }

    /// Appends `o` to the ordering of the target rows.
    pub fn order_by(self, o: OrderBy<C>) -> (r: Self)
        ensures
            r.order@ == self.order@.push(o),
            r.join_owner_col == self.join_owner_col,
            r.join_target_col == self.join_target_col,
            r.target_pk == self.target_pk,
            r.filter == self.filter,
            r.limit == self.limit,
    {
        let mut s = self;
        s.order.push(o);
        s
    }

    /// Keeps at most `n` targets for each parent.
    pub fn take(self, n: u64) -> (r: Self)
        ensures
            r.limit == Some(n),
            r.join_owner_col == self.join_owner_col,
            r.join_target_col == self.join_target_col,
            r.target_pk == self.target_pk,
            r.filter == self.filter,
            r.order@ == self.order@,
    {
        IncludeMany { limit: Some(n), ..self }
    }

    /// The statements that read the join rows of the parents with `keys`
    /// (see [`join_row_statements`]).
    pub fn join_statements(&self, dialect: Dialect, keys: &[Value], max_query_params: u32) -> (r: Vec<CompiledSql>)
        requires
            fetch_ok::<J>(
                dialect,
                self.join_owner_col,
                no_filter(),
                join_row_order::<J>(self.join_owner_col, self.join_target_col),
                None,
                true,
                first_seen(views_of(keys@)),
                chunk_len(max_query_params),
            ),
        ensures
            fetch_plan::<J>(
                dialect,
                self.join_owner_col,
                no_filter(),
                join_row_order::<J>(self.join_owner_col, self.join_target_col),
                None,
                true,
                first_seen(views_of(keys@)),
                chunk_len(max_query_params),
                r@,
            ),
    {
        join_row_statements::<J>(dialect, self.join_owner_col, self.join_target_col, keys, max_query_params)
    }

    /// The statements that read the targets named by the join rows, whose
    /// target keys are `target_keys`: deduplicated, in chunks, with the
    /// relation's filter and order; the per-parent limit is applied when
    /// the targets are handed out.
    pub fn target_statements(
        &self,
        dialect: Dialect,
        target_keys: &[Value],
        max_query_params: u32,
        window_functions: bool,
    ) -> (r: Vec<CompiledSql>)
        requires
            fetch_ok::<C>(
                dialect,
                self.target_pk,
                self.filter.node,
                self.order@,
                None,
                window_functions,
                first_seen(views_of(target_keys@)),
                chunk_len(max_query_params),
            ),
        ensures
            fetch_plan::<C>(
                dialect,
                self.target_pk,
                self.filter.node,
                self.order@,
                None,
                window_functions,
                first_seen(views_of(target_keys@)),
                chunk_len(max_query_params),
                r@,
            ),
    {
        child_fetch_statements::<C>(
            dialect,
            self.target_pk,
            &self.filter.node,
            self.order.as_slice(),
            None,
            target_keys,
            max_query_params,
            window_functions,
        )
    }

    /// For each parent key, the positions of the targets it reaches through
    /// the join rows `(join_owners[j], join_targets[j])`, in fetch order,
    /// cut to the per-parent limit (see [`group_through`]).
    pub fn attach(
        &self,
        parent_keys: &[Value],
        join_owners: &[Value],
        join_targets: &[Value],
        target_keys: &[Value],
    ) -> (r: Vec<Vec<usize>>)
        requires
            join_owners@.len() == join_targets@.len(),
        ensures
            r@.len() == parent_keys@.len(),
            forall|i: int|
                0 <= i < r@.len() ==> index_seq(#[trigger] r@[i]@) == at_most(
                    linked_children(
                        views_of(join_owners@),
                        views_of(join_targets@),
                        views_of(target_keys@),
                        parent_keys@[i]@,
                    ),
                    self.limit,
                ),
    {
        group_through(parent_keys, join_owners, join_targets, target_keys, self.limit)
    }
}

} // verus!
