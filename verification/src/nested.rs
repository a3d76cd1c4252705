//! Nested relational writes: `create`, `connect`, `connect_or_create`,
//! `disconnect`, `set` and `delete` on a child relation, planned as the
//! statements that carry them out.
//!
//! A plan is a list of steps. A step either runs one statement, or runs a
//! probe and then one of two statements depending on whether the probe found
//! a row. The caller runs the steps in order, in one transaction.
use std::marker::PhantomData;

use vstd::prelude::*;

use crate::col::{converted, Column};
use crate::compile::{
    copy_node, delete, filter_sql, insert, insert_text, pair_columns, pair_values, select,
    select_text, set_list, update, update_text, returning_clause, CompiledSql,
};
use crate::dialect::{quoted, Dialect};
use crate::filter::{is_trivial, CmpOp, Filter, FilterNode};
use crate::model::Model;
use crate::order::OrderBy;
use crate::value::{copy_value, copy_values, lemma_views_of_index, views_of, Encodable, Value, ValueView};

verus! {

/// A builder for creating a nested child entity.
#[derive(Debug)]
pub struct NestedCreate<C> {
    /// Column values for the child entity.
    pub values: Vec<(&'static str, Value)>,
    /// Ties the builder to its child model.
    pub _marker: PhantomData<C>,
}

impl<C> NestedCreate<C> {
    /// Creates a new empty nested create builder.
    pub fn new() -> (r: Self)
        ensures
            r.values@.len() == 0,
    {
        NestedCreate { values: Vec::new(), _marker: PhantomData }
    }

    /// Sets a column value on the child.
    pub fn set<T: Encodable, V: Into<T>>(self, col: Column<C, T>, value: V) -> (r: Self)
        ensures
            r.values@.len() == self.values@.len() + 1,
            r.values@.drop_last() == self.values@,
            r.values@.last().0 == col.column,
            converted::<V, T>(value, r.values@.last().1@),
    {
        let t: T = value.into();
        let v = t.to_value();
        let mut values = self.values;
        values.push((col.column, v));
        proof {
            assert(values@.drop_last() =~= self.values@);
        }
        NestedCreate { values, _marker: PhantomData }
    }

    /// Sets a column value if `value` is `Some`.
    pub fn set_if<T: Encodable, V: Into<T>>(self, col: Column<C, T>, value: Option<V>) -> (r: Self)
        ensures
            value is None ==> r.values@ == self.values@,
            value is Some ==> r.values@.len() == self.values@.len() + 1 && r.values@.drop_last()
                == self.values@ && r.values@.last().0 == col.column && converted::<V, T>(
                value->0,
                r.values@.last().1@,
            ),
    {
        match value {
            Some(v) => self.set(col, v),
            None => self,
        }
    }
}

impl<C> Default for NestedCreate<C> {
    fn default() -> (r: Self)
        ensures
            r.values@.len() == 0,
    {
        NestedCreate::new()
    }
}

/// A specification for nested `connect_or_create` operations.
#[derive(Debug)]
pub struct NestedConnectOrCreate<C> {
    /// Filter used to check if the child entity already exists.
    pub filter: Filter<C>,
    /// Fallback values to create the child entity if not found.
    pub create: NestedCreate<C>,
}

impl<C> NestedConnectOrCreate<C> {
    /// Creates a new `NestedConnectOrCreate`.
    pub fn new(filter: Filter<C>, create: NestedCreate<C>) -> (r: Self)
        ensures
            r.filter == filter,
            r.create == create,
    {
        NestedConnectOrCreate { filter, create }
    }
}

/// An operation on a one-to-many or one-to-one child relation.
#[derive(Debug)]
pub enum RelNestedOp<C> {
    /// Create child rows with given values.
    Create(Vec<NestedCreate<C>>),
    /// Connect existing child rows by primary key.
    Connect(Vec<Value>),
    /// Connect matching child or create if not found.
    ConnectOrCreate(Vec<NestedConnectOrCreate<C>>),
    /// Disconnect child rows by primary key (sets the foreign key to NULL).
    Disconnect(Vec<Value>),
    /// Replace all children with the given list of primary keys.
    Replace(Vec<Value>),
    /// Delete child rows by primary key.
    Delete(Vec<Value>),
}

/// A nested write on model `M` targeting the child relation `C`.
#[derive(Debug)]
pub struct NestedRelWrite<M, C> {
    /// The child table.
    pub child_table: &'static str,
    /// The child column that points at the parent.
    pub child_fk_col: &'static str,
    /// The child's primary-key column.
    pub child_pk_col: &'static str,
    /// The operations, in the order they run.
    pub ops: Vec<RelNestedOp<C>>,
    /// Ties the write to its parent and child models.
    pub _marker: PhantomData<(M, C)>,
}

/// One step of a nested write.
#[derive(Debug)]
pub enum NestedStep {
    /// Run this statement.
    Execute(CompiledSql),
    /// Run `probe`; then run `found` when it returned a row, else `missing`.
    ConnectOrCreate { probe: CompiledSql, found: CompiledSql, missing: CompiledSql },
}

/// What a step runs, as text and binds.
pub enum StepView {
    /// One statement.
    Execute(Seq<char>, Seq<ValueView>),
    /// A probe and the statement for each of its outcomes.
    ConnectOrCreate {
        probe: (Seq<char>, Seq<ValueView>),
        found: (Seq<char>, Seq<ValueView>),
        missing: (Seq<char>, Seq<ValueView>),
    },
}

/// The text and binds of a compiled statement.
pub open spec fn compiled_view(c: CompiledSql) -> (Seq<char>, Seq<ValueView>) {
    (c.sql@, views_of(c.binds@))
}

/// What a step runs.
pub open spec fn step_view(s: NestedStep) -> StepView {
    match s {
        NestedStep::Execute(c) => StepView::Execute(c.sql@, views_of(c.binds@)),
        NestedStep::ConnectOrCreate { probe, found, missing } => StepView::ConnectOrCreate {
            probe: compiled_view(probe),
            found: compiled_view(found),
            missing: compiled_view(missing),
        },
    }
}

/// `table.pk IN (pks)`.
pub open spec fn pk_in(table: &'static str, pk: &'static str, pks: Vec<Value>) -> FilterNode {
    FilterNode::In { table, column: pk, values: pks, negated: false }
}

/// `table.fk = parent`.
pub open spec fn fk_eq(table: &'static str, fk: &'static str, parent: Value) -> FilterNode {
    FilterNode::Cmp { table, column: fk, op: CmpOp::Eq, value: parent }
}

/// `(table.pk IN (pks) AND table.fk = parent)` after `k` earlier binds.
pub open spec fn pk_in_and_fk_eq(
    d: Dialect,
    table: &'static str,
    fk: &'static str,
    pk: &'static str,
    pks: Vec<Value>,
    parent: Value,
    k: nat,
) -> (Seq<char>, Seq<ValueView>) {
    let a = filter_sql(d, pk_in(table, pk, pks), k);
    let b = filter_sql(d, fk_eq(table, fk, parent), k + a.1.len());
    ("("@ + a.0 + " AND "@ + b.0 + ")"@, a.1 + b.1)
}

/// Insert a child with `values` and its foreign key set to `parent`.
pub open spec fn attach_view(
    d: Dialect,
    table: &'static str,
    fk: &'static str,
    values: Seq<(&'static str, Value)>,
    parent: Value,
) -> (Seq<char>, Seq<ValueView>) {
    (
        insert_text(d, table@, values.push((fk, parent)), Seq::empty()),
        pair_values(values.push((fk, parent))),
    )
}

/// Point the children `pks` at `parent`.
pub open spec fn link_view(
    d: Dialect,
    table: &'static str,
    fk: &'static str,
    pk: &'static str,
    pks: Vec<Value>,
    parent: Value,
) -> (Seq<char>, Seq<ValueView>) {
    let t = update_text(d, table@, seq![(fk, parent)], pk_in(table, pk, pks), Seq::empty());
    (t.0, t.1)
}

/// Clear the foreign key of every child of `parent`.
pub open spec fn detach_all_view(
    d: Dialect,
    table: &'static str,
    fk: &'static str,
    parent: Value,
) -> (Seq<char>, Seq<ValueView>) {
    let t = update_text(d, table@, seq![(fk, Value::Null)], fk_eq(table, fk, parent), Seq::empty());
    (t.0, t.1)
}

/// Clear the foreign key of those of the children `pks` that belong to
/// `parent`.
pub open spec fn unlink_view(
    d: Dialect,
    table: &'static str,
    fk: &'static str,
    pk: &'static str,
    pks: Vec<Value>,
    parent: Value,
) -> (Seq<char>, Seq<ValueView>) {
    let w = pk_in_and_fk_eq(d, table, fk, pk, pks, parent, 1);
    (
        "UPDATE "@ + quoted(d, table@) + " SET "@ + set_list(d, seq![fk@], 0) + " WHERE "@ + w.0
            + returning_clause(d, Seq::empty()),
        seq![ValueView::Null] + w.1,
    )
}

/// Delete those of the children `pks` that belong to `parent`.
pub open spec fn remove_view(
    d: Dialect,
    table: &'static str,
    fk: &'static str,
    pk: &'static str,
    pks: Vec<Value>,
    parent: Value,
) -> (Seq<char>, Seq<ValueView>) {
    let w = pk_in_and_fk_eq(d, table, fk, pk, pks, parent, 0);
    ("DELETE FROM "@ + quoted(d, table@) + " WHERE "@ + w.0 + returning_clause(d, Seq::empty()), w.1)
}

/// Look for a child matching `filter`.
pub open spec fn probe_view<C: Model>(
    d: Dialect,
    table: &'static str,
    pk: &'static str,
    filter: FilterNode,
) -> (Seq<char>, Seq<ValueView>) {
    let t = select_text::<C>(d, table@, seq![pk], filter, Seq::<OrderBy<C>>::empty(), Some(1), None, false);
    (t.0, t.1)
}

/// Point the children matching `filter` at `parent`.
pub open spec fn found_view(
    d: Dialect,
    table: &'static str,
    fk: &'static str,
    filter: FilterNode,
    parent: Value,
) -> (Seq<char>, Seq<ValueView>) {
    let t = update_text(d, table@, seq![(fk, parent)], filter, Seq::empty());
    (t.0, t.1)
}

/// Whether the statements of a `connect_or_create` item can be compiled:
/// every subquery in its filter can be spliced in.
pub open spec fn item_ok<C: Model>(
    d: Dialect,
    table: &'static str,
    fk: &'static str,
    pk: &'static str,
    filter: FilterNode,
    parent: Value,
) -> bool {
    select_text::<C>(d, table@, seq![pk], filter, Seq::<OrderBy<C>>::empty(), Some(1), None, false).2
        && update_text(d, table@, seq![(fk, parent)], filter, Seq::empty()).2
}

/// The steps of one operation.
pub open spec fn op_steps<C: Model>(
    d: Dialect,
    table: &'static str,
    fk: &'static str,
    pk: &'static str,
    op: RelNestedOp<C>,
    parent: Value,
) -> Seq<StepView> {
    match op {
        RelNestedOp::Create(creates) => Seq::new(
            creates@.len(),
            |i: int|
                {
                    let v = attach_view(d, table, fk, creates@[i].values@, parent);
                    StepView::Execute(v.0, v.1)
                },
        ),
        RelNestedOp::Connect(pks) => if pks@.len() == 0 {
            Seq::empty()
        } else {
            let v = link_view(d, table, fk, pk, pks, parent);
            seq![StepView::Execute(v.0, v.1)]
        },
        RelNestedOp::ConnectOrCreate(items) => Seq::new(
            items@.len(),
            |i: int|
                StepView::ConnectOrCreate {
                    probe: probe_view::<C>(d, table, pk, items@[i].filter.node),
                    found: found_view(d, table, fk, items@[i].filter.node, parent),
                    missing: attach_view(d, table, fk, items@[i].create.values@, parent),
                },
        ),
        RelNestedOp::Disconnect(pks) => if pks@.len() == 0 {
            Seq::empty()
        } else {
            let v = unlink_view(d, table, fk, pk, pks, parent);
            seq![StepView::Execute(v.0, v.1)]
        },
        RelNestedOp::Replace(pks) => {
            let v = detach_all_view(d, table, fk, parent);
            seq![StepView::Execute(v.0, v.1)] + if pks@.len() == 0 {
                Seq::empty()
            } else {
                let w = link_view(d, table, fk, pk, pks, parent);
                seq![StepView::Execute(w.0, w.1)]
            }
        },
        RelNestedOp::Delete(pks) => if pks@.len() == 0 {
            Seq::empty()
        } else {
            let v = remove_view(d, table, fk, pk, pks, parent);
            seq![StepView::Execute(v.0, v.1)]
        },
    }
}

/// The steps of all operations, one operation after another.
pub open spec fn plan_steps<C: Model>(
    d: Dialect,
    table: &'static str,
    fk: &'static str,
    pk: &'static str,
    ops: Seq<RelNestedOp<C>>,
    parent: Value,
) -> Seq<StepView>
    decreases ops.len(),
{
    if ops.len() == 0 {
        Seq::empty()
    } else {
        plan_steps(d, table, fk, pk, ops.drop_last(), parent) + op_steps(
            d,
            table,
            fk,
            pk,
            ops.last(),
            parent,
        )
    }
}

/// Whether every `connect_or_create` item of `op` can be compiled.
pub open spec fn op_ok<C: Model>(
    d: Dialect,
    table: &'static str,
    fk: &'static str,
    pk: &'static str,
    op: RelNestedOp<C>,
    parent: Value,
) -> bool {
    match op {
        RelNestedOp::ConnectOrCreate(items) => forall|j: int|
            0 <= j < items@.len() ==> item_ok::<C>(d, table, fk, pk, #[trigger] items@[j].filter.node, parent),
        _ => true,
    }
}

/// Whether every `connect_or_create` item of `ops` can be compiled.
pub open spec fn plan_ok<C: Model>(
    d: Dialect,
    table: &'static str,
    fk: &'static str,
    pk: &'static str,
    ops: Seq<RelNestedOp<C>>,
    parent: Value,
) -> bool {
    forall|i: int| 0 <= i < ops.len() ==> op_ok::<C>(d, table, fk, pk, #[trigger] ops[i], parent)
}

pub(crate) fn no_columns() -> (r: Vec<&'static str>)
    ensures
        r@ == Seq::<&str>::empty(),
{
    Vec::new()
}

fn copy_pairs(values: &Vec<(&'static str, Value)>) -> (r: Vec<(&'static str, Value)>)
    ensures
        r@.len() == values@.len(),
        pair_columns(r@) == pair_columns(values@),
        pair_values(r@) == pair_values(values@),
{
    let mut out: Vec<(&'static str, Value)> = Vec::new();
    let mut i: usize = 0;
    while i < values.len()
        invariant
            i <= values@.len(),
            out@.len() == i,
            forall|k: int| 0 <= k < i ==> (#[trigger] out@[k]).0 == values@[k].0 && out@[k].1@ == values@[k].1@,
        decreases values@.len() - i,
    {
        let c = copy_value(&values[i].1);
        out.push((values[i].0, c));
        i = i + 1;
    }
    proof {
        assert(pair_columns(out@) =~= pair_columns(values@));
        assert(pair_values(out@) =~= pair_values(values@));
    }
    out
}

/// The node `table.pk IN (pks)`, with its own copy of the keys.
pub(crate) fn pk_in_node(table: &'static str, pk: &'static str, pks: &Vec<Value>) -> (r: FilterNode)
    ensures
        !is_trivial(r),
        forall|d: Dialect, k: nat| #[trigger] filter_sql(d, r, k) == filter_sql(d, pk_in(table, pk, *pks), k),
{
    let c = copy_values(pks);
    proof {
        lemma_views_of_index(c@);
        lemma_views_of_index(pks@);
    }
    FilterNode::In { table, column: pk, values: c, negated: false }
}

/// The node `table.fk = parent`, with its own copy of the value.
pub(crate) fn fk_eq_node(table: &'static str, fk: &'static str, parent: &Value) -> (r: FilterNode)
    ensures
        !is_trivial(r),
        forall|d: Dialect, k: nat| #[trigger] filter_sql(d, r, k) == filter_sql(d, fk_eq(table, fk, *parent), k),
{
    let c = copy_value(parent);
    proof {
        assert((c is Null) == (parent is Null)) by {
            if c is Null {
                assert(parent@ == ValueView::Null);
            }
            if parent is Null {
                assert(c@ == ValueView::Null);
            }
        }
    }
    let r = FilterNode::Cmp { table, column: fk, op: CmpOp::Eq, value: c };
    proof {
        assert forall|d: Dialect, k: nat| #[trigger] filter_sql(d, r, k) == filter_sql(d, fk_eq(table, fk, *parent), k) by {
            assert(seq![c@] == seq![parent@]);
        }
    }
    r
}

/// The single assignment `fk = value`, with its own copy of the value.
fn one_assignment(fk: &'static str, value: &Value) -> (r: Vec<(&'static str, Value)>)
    ensures
        r@.len() == 1,
        pair_columns(r@) == pair_columns(seq![(fk, *value)]),
        pair_values(r@) == pair_values(seq![(fk, *value)]),
{
    let mut v: Vec<(&'static str, Value)> = Vec::new();
    v.push((fk, copy_value(value)));
    proof {
        assert(pair_columns(v@) =~= pair_columns(seq![(fk, *value)]));
        assert(pair_values(v@) =~= pair_values(seq![(fk, *value)]));
    }
    v
}

/// `INSERT` of a child with `values` and its foreign key set to `parent`.
pub fn attach_statement<C: Model>(
    dialect: Dialect,
    table: &'static str,
    fk: &'static str,
    values: &Vec<(&'static str, Value)>,
    parent: &Value,
) -> (r: CompiledSql)
    ensures
        compiled_view(r) == attach_view(dialect, table, fk, values@, *parent),
{
    let mut row = copy_pairs(values);
    let ghost before = row@;
    row.push((fk, copy_value(parent)));
    let none = no_columns();
    let r = insert::<C>(dialect, table, row.as_slice(), none.as_slice());
    proof {
        let want = values@.push((fk, *parent));
        assert(pair_columns(row@) =~= pair_columns(want)) by {
            assert(pair_columns(before) == pair_columns(values@));
            assert forall|k: int| 0 <= k < want.len() implies pair_columns(row@)[k] == pair_columns(want)[k] by {
                if k < values@.len() {
                    assert(pair_columns(before)[k] == pair_columns(values@)[k]);
                }
            }
        }
        assert(pair_values(row@) =~= pair_values(want)) by {
            assert forall|k: int| 0 <= k < want.len() implies pair_values(row@)[k] == pair_values(want)[k] by {
                if k < values@.len() {
                    assert(pair_values(before)[k] == pair_values(values@)[k]);
                }
            }
        }
    }
    r
}

/// `UPDATE ... SET fk = parent WHERE table.pk IN (pks)`.
pub fn link_statement<C: Model>(
    dialect: Dialect,
    table: &'static str,
    fk: &'static str,
    pk: &'static str,
    pks: &Vec<Value>,
    parent: &Value,
) -> (r: CompiledSql)
    ensures
        compiled_view(r) == link_view(dialect, table, fk, pk, *pks, *parent),
{
    let node = pk_in_node(table, pk, pks);
    let sets = one_assignment(fk, parent);
    let none = no_columns();
    proof {
        assert(filter_sql(dialect, node, 1) == filter_sql(dialect, pk_in(table, pk, *pks), 1));
    }
    update::<C>(dialect, table, sets.as_slice(), &node, none.as_slice())
}

/// `UPDATE ... SET fk = NULL WHERE table.fk = parent`.
pub fn detach_all_statement<C: Model>(
    dialect: Dialect,
    table: &'static str,
    fk: &'static str,
    parent: &Value,
) -> (r: CompiledSql)
    ensures
        compiled_view(r) == detach_all_view(dialect, table, fk, *parent),
{
    let node = fk_eq_node(table, fk, parent);
    let sets = one_assignment(fk, &Value::Null);
    let none = no_columns();
    proof {
        assert(filter_sql(dialect, node, 1) == filter_sql(dialect, fk_eq(table, fk, *parent), 1));
    }
    update::<C>(dialect, table, sets.as_slice(), &node, none.as_slice())
}

/// A conjunction of two nodes renders as both, parenthesised, joined by `AND`.
pub(crate) proof fn lemma_and_of_two(d: Dialect, n: FilterNode, a: FilterNode, b: FilterNode, k: nat)
    requires
        n matches FilterNode::And(v) && v@ == seq![a, b],
    ensures
        ({
            let fa = filter_sql(d, a, k);
            let fb = filter_sql(d, b, k + fa.1.len());
            filter_sql(d, n, k) == ("("@ + fa.0 + " AND "@ + fb.0 + ")"@, fa.1 + fb.1, fa.2 && fb.2)
        }),
{
    let v = n->And_0@;
    let sep = " AND "@;
    assert(v.drop_last() =~= seq![a]);
    assert(seq![a].drop_last() =~= Seq::<FilterNode>::empty());
    let fa = filter_sql(d, a, k);
    let e = crate::compile::list_sql(d, Seq::<FilterNode>::empty(), sep, k);
    assert(e == (Seq::<char>::empty(), Seq::<ValueView>::empty(), true));
    assert(seq![a].last() == a);
    assert(Seq::<ValueView>::empty() + fa.1 =~= fa.1);
    let la = crate::compile::list_sql(d, seq![a], sep, k);
    assert(la == (fa.0, fa.1, fa.2));
    assert(v.last() == b);
    let fb = filter_sql(d, b, k + fa.1.len());
    let lv = crate::compile::list_sql(d, v, sep, k);
    assert(lv == (fa.0 + sep + fb.0, fa.1 + fb.1, fa.2 && fb.2));
}

proof fn lemma_pk_in_and_fk_eq(
    d: Dialect,
    r: FilterNode,
    a: FilterNode,
    b: FilterNode,
    table: &'static str,
    fk: &'static str,
    pk: &'static str,
    pks: Vec<Value>,
    parent: Value,
    k: nat,
)
    requires
        r matches FilterNode::And(v) && v@ == seq![a, b],
        filter_sql(d, a, k) == filter_sql(d, pk_in(table, pk, pks), k),
        filter_sql(d, b, k + filter_sql(d, a, k).1.len()) == filter_sql(
            d,
            fk_eq(table, fk, parent),
            k + filter_sql(d, a, k).1.len(),
        ),
    ensures
        filter_sql(d, r, k).0 == pk_in_and_fk_eq(d, table, fk, pk, pks, parent, k).0,
        filter_sql(d, r, k).1 == pk_in_and_fk_eq(d, table, fk, pk, pks, parent, k).1,
        filter_sql(d, r, k).2,
{
    lemma_and_of_two(d, r, a, b, k);
}

/// The node `(table.pk IN (pks) AND table.fk = parent)`.
#[verifier::rlimit(40)]
#[verifier::spinoff_prover]
fn pk_in_and_fk_eq_node(
    table: &'static str,
    fk: &'static str,
    pk: &'static str,
    pks: &Vec<Value>,
    parent: &Value,
) -> (r: FilterNode)
    ensures
        !is_trivial(r),
        forall|d: Dialect, k: nat|
            #![trigger filter_sql(d, r, k)]
            filter_sql(d, r, k).0 == pk_in_and_fk_eq(d, table, fk, pk, *pks, *parent, k).0
                && filter_sql(d, r, k).1 == pk_in_and_fk_eq(d, table, fk, pk, *pks, *parent, k).1
                && filter_sql(d, r, k).2,
{
    let a = pk_in_node(table, pk, pks);
    let b = fk_eq_node(table, fk, parent);
    let mut v: Vec<FilterNode> = Vec::new();
    v.push(a);
    v.push(b);
    let r = FilterNode::And(v);
    proof {
        assert(v@ =~= seq![a, b]);
        assert forall|d: Dialect, k: nat|
            #![trigger filter_sql(d, r, k)]
            filter_sql(d, r, k).0 == pk_in_and_fk_eq(d, table, fk, pk, *pks, *parent, k).0
                && filter_sql(d, r, k).1 == pk_in_and_fk_eq(d, table, fk, pk, *pks, *parent, k).1
                && filter_sql(d, r, k).2 by {
            let fa = filter_sql(d, a, k);
            let j = k + fa.1.len();
            assert(filter_sql(d, a, k) == filter_sql(d, pk_in(table, pk, *pks), k));
            assert(filter_sql(d, b, j) == filter_sql(d, fk_eq(table, fk, *parent), j));
            lemma_pk_in_and_fk_eq(d, r, a, b, table, fk, pk, *pks, *parent, k);
        }
    }
    r
}

/// `UPDATE ... SET fk = NULL WHERE (table.pk IN (pks) AND table.fk = parent)`.
#[verifier::rlimit(60)]
#[verifier::spinoff_prover]
pub fn unlink_statement<C: Model>(
    dialect: Dialect,
    table: &'static str,
    fk: &'static str,
    pk: &'static str,
    pks: &Vec<Value>,
    parent: &Value,
) -> (r: CompiledSql)
    ensures
        compiled_view(r) == unlink_view(dialect, table, fk, pk, *pks, *parent),
{
    let node = pk_in_and_fk_eq_node(table, fk, pk, pks, parent);
    let sets = one_assignment(fk, &Value::Null);
    let none = no_columns();
    proof {
        assert(filter_sql(dialect, node, 1).2);
        assert(pair_columns(seq![(fk, Value::Null)]) =~= seq![fk@]);
        assert(pair_values(seq![(fk, Value::Null)]) =~= seq![ValueView::Null]);
    }
    update::<C>(dialect, table, sets.as_slice(), &node, none.as_slice())
}

/// `DELETE ... WHERE (table.pk IN (pks) AND table.fk = parent)`.
#[verifier::rlimit(60)]
#[verifier::spinoff_prover]
pub fn remove_statement<C: Model>(
    dialect: Dialect,
    table: &'static str,
    fk: &'static str,
    pk: &'static str,
    pks: &Vec<Value>,
    parent: &Value,
) -> (r: CompiledSql)
    ensures
        compiled_view(r) == remove_view(dialect, table, fk, pk, *pks, *parent),
{
    let node = pk_in_and_fk_eq_node(table, fk, pk, pks, parent);
    let none = no_columns();
    proof {
        assert(filter_sql(dialect, node, 0).2);
    }
    delete::<C>(dialect, table, &node, none.as_slice())
}

/// `SELECT pk ... WHERE filter LIMIT 1`, which finds whether a child exists.
pub fn probe_statement<C: Model>(
    dialect: Dialect,
    table: &'static str,
    pk: &'static str,
    filter: &FilterNode,
) -> (r: CompiledSql)
    requires
        select_text::<C>(dialect, table@, seq![pk], *filter, Seq::<OrderBy<C>>::empty(), Some(1), None, false).2,
    ensures
        compiled_view(r) == probe_view::<C>(dialect, table, pk, *filter),
{
    let mut cols: Vec<&str> = Vec::new();
    cols.push(pk);
    let order: Vec<OrderBy<C>> = Vec::new();
    proof {
        assert(cols@ =~= seq![pk]);
        assert(order@ =~= Seq::<OrderBy<C>>::empty());
    }
    select::<C>(dialect, table, cols.as_slice(), filter, order.as_slice(), Some(1), None, false)
}

/// `UPDATE ... SET fk = parent WHERE filter`, which connects the children found.
pub fn found_statement<C: Model>(
    dialect: Dialect,
    table: &'static str,
    fk: &'static str,
    filter: &FilterNode,
    parent: &Value,
) -> (r: CompiledSql)
    requires
        update_text(dialect, table@, seq![(fk, *parent)], *filter, Seq::empty()).2,
    ensures
        compiled_view(r) == found_view(dialect, table, fk, *filter, *parent),
{
    let sets = one_assignment(fk, parent);
    let none = no_columns();
    update::<C>(dialect, table, sets.as_slice(), filter, none.as_slice())
}

/// What each step runs.
pub open spec fn step_views(s: Seq<NestedStep>) -> Seq<StepView> {
    s.map_values(|x: NestedStep| step_view(x))
}

proof fn lemma_push_step(s: Seq<NestedStep>, x: NestedStep)
    ensures
        step_views(s.push(x)) == step_views(s).push(step_view(x)),
{
    assert(step_views(s.push(x)) =~= step_views(s).push(step_view(x)));
}

impl<M, C: Model> NestedRelWrite<M, C> {
    /// Creates a new nested relation write.
    pub fn new(
        child_table: &'static str,
        child_fk_col: &'static str,
        child_pk_col: &'static str,
        ops: Vec<RelNestedOp<C>>,
    ) -> (r: Self)
        ensures
            r.child_table == child_table,
            r.child_fk_col == child_fk_col,
            r.child_pk_col == child_pk_col,
            r.ops == ops,
    {
        NestedRelWrite { child_table, child_fk_col, child_pk_col, ops, _marker: PhantomData }
    }

    fn plan_op(&self, dialect: Dialect, op: &RelNestedOp<C>, parent: &Value, out: &mut Vec<NestedStep>)
        requires
            op_ok::<C>(dialect, self.child_table, self.child_fk_col, self.child_pk_col, *op, *parent),
        ensures
            step_views(final(out)@) == step_views(old(out)@) + op_steps::<C>(
                dialect,
                self.child_table,
                self.child_fk_col,
                self.child_pk_col,
                *op,
                *parent,
            ),
    {
        let t = self.child_table;
        let fk = self.child_fk_col;
        let pk = self.child_pk_col;
        let ghost base = step_views(out@);
        let ghost want = op_steps::<C>(dialect, t, fk, pk, *op, *parent);
        match op {
            RelNestedOp::Create(creates) => {
                let mut i: usize = 0;
                while i < creates.len()
                    invariant
                        i <= creates@.len(),
                        want == op_steps::<C>(dialect, t, fk, pk, *op, *parent),
                        *op == RelNestedOp::Create(*creates),
                        step_views(out@) == base + want.take(i as int),
                    decreases creates@.len() - i,
                {
                    let c = attach_statement::<C>(dialect, t, fk, &creates[i].values, parent);
                    let ghost before = out@;
                    out.push(NestedStep::Execute(c));
                    proof {
                        lemma_push_step(before, NestedStep::Execute(c));
                        assert(want.take(i + 1) =~= want.take(i as int).push(want[i as int]));
                    }
                    i = i + 1;
                }
                proof {
                    assert(want.take(creates@.len() as int) =~= want);
                }
            },
            RelNestedOp::Connect(pks) => {
                if pks.len() > 0 {
                    let c = link_statement::<C>(dialect, t, fk, pk, pks, parent);
                    let ghost before = out@;
                    out.push(NestedStep::Execute(c));
                    proof {
                        lemma_push_step(before, NestedStep::Execute(c));
                    }
                } else {
                    proof {
                        assert(base + want =~= base);
                    }
                }
            },
            RelNestedOp::ConnectOrCreate(items) => {
                let mut i: usize = 0;
                while i < items.len()
                    invariant
                        i <= items@.len(),
                        want == op_steps::<C>(dialect, t, fk, pk, *op, *parent),
                        *op == RelNestedOp::ConnectOrCreate(*items),
                        op_ok::<C>(dialect, t, fk, pk, *op, *parent),
                        step_views(out@) == base + want.take(i as int),
                    decreases items@.len() - i,
                {
                    let node = &items[i].filter.node;
                    proof {
                        assert(item_ok::<C>(dialect, t, fk, pk, items@[i as int].filter.node, *parent));
                    }
                    let probe = probe_statement::<C>(dialect, t, pk, node);
                    let found = found_statement::<C>(dialect, t, fk, node, parent);
                    let missing = attach_statement::<C>(dialect, t, fk, &items[i].create.values, parent);
                    let step = NestedStep::ConnectOrCreate { probe, found, missing };
                    let ghost before = out@;
                    out.push(step);
                    proof {
                        lemma_push_step(before, step);
                        assert(want.take(i + 1) =~= want.take(i as int).push(want[i as int]));
                    }
                    i = i + 1;
                }
                proof {
                    assert(want.take(items@.len() as int) =~= want);
                }
            },
            RelNestedOp::Disconnect(pks) => {
                if pks.len() > 0 {
                    let c = unlink_statement::<C>(dialect, t, fk, pk, pks, parent);
                    let ghost before = out@;
                    out.push(NestedStep::Execute(c));
                    proof {
                        lemma_push_step(before, NestedStep::Execute(c));
                    }
                } else {
                    proof {
                        assert(base + want =~= base);
                    }
                }
            },
            RelNestedOp::Replace(pks) => {
                let c = detach_all_statement::<C>(dialect, t, fk, parent);
                let ghost before = out@;
                out.push(NestedStep::Execute(c));
                proof {
                    lemma_push_step(before, NestedStep::Execute(c));
                }
                if pks.len() > 0 {
                    let c2 = link_statement::<C>(dialect, t, fk, pk, pks, parent);
                    let ghost mid = out@;
                    out.push(NestedStep::Execute(c2));
                    proof {
                        lemma_push_step(mid, NestedStep::Execute(c2));
                        assert(step_views(out@) =~= base + want);
                    }
                } else {
                    proof {
                        assert(step_views(out@) =~= base + want);
                    }
                }
            },
            RelNestedOp::Delete(pks) => {
                if pks.len() > 0 {
                    let c = remove_statement::<C>(dialect, t, fk, pk, pks, parent);
                    let ghost before = out@;
                    out.push(NestedStep::Execute(c));
                    proof {
                        lemma_push_step(before, NestedStep::Execute(c));
                    }
                } else {
                    proof {
                        assert(base + want =~= base);
                    }
                }
            },
        }
    }

    /// The steps that carry out every operation for the parent whose
    /// primary key is `parent_pk`, in order.
    pub fn plan(&self, dialect: Dialect, parent_pk: &Value) -> (r: Vec<NestedStep>)
        requires
            plan_ok::<C>(dialect, self.child_table, self.child_fk_col, self.child_pk_col, self.ops@, *parent_pk),
        ensures
            step_views(r@) == plan_steps::<C>(
                dialect,
                self.child_table,
                self.child_fk_col,
                self.child_pk_col,
                self.ops@,
                *parent_pk,
            ),
    {
        let mut out: Vec<NestedStep> = Vec::new();
        let mut i: usize = 0;
        proof {
            assert(step_views(out@) =~= Seq::<StepView>::empty());
            assert(self.ops@.take(0) =~= Seq::<RelNestedOp<C>>::empty());
        }
        while i < self.ops.len()
            invariant
                i <= self.ops@.len(),
                plan_ok::<C>(dialect, self.child_table, self.child_fk_col, self.child_pk_col, self.ops@, *parent_pk),
                step_views(out@) == plan_steps::<C>(
                    dialect,
                    self.child_table,
                    self.child_fk_col,
                    self.child_pk_col,
                    self.ops@.take(i as int),
                    *parent_pk,
                ),
            decreases self.ops@.len() - i,
        {
            proof {
                assert(op_ok::<C>(dialect, self.child_table, self.child_fk_col, self.child_pk_col, self.ops@[i as int], *parent_pk));
                assert(self.ops@.take(i + 1).drop_last() =~= self.ops@.take(i as int));
                assert(self.ops@.take(i + 1).last() == self.ops@[i as int]);
            }
            self.plan_op(dialect, &self.ops[i], parent_pk, &mut out);
            i = i + 1;
        }
        proof {
            assert(self.ops@.take(self.ops@.len() as int) =~= self.ops@);
        }
        out
    }
}


/// What the runner of a nested write's steps does next.
#[derive(Debug, Clone, Copy, PartialEq, Eq)]
pub enum NestedAction {
    /// Run the step at this position.
    Run(usize),
    /// Every step ran; the write succeeded.
    Done,
    /// The last step failed; run no further step and report its error.
    Stop,
}

/// The next action after `completed` of `total` steps ran, the last of them
/// having failed when `failed`.
pub open spec fn nested_action(total: nat, completed: nat, failed: bool) -> NestedAction {
    if failed {
        NestedAction::Stop
    } else if completed < total {
        NestedAction::Run(completed as usize)
    } else {
        NestedAction::Done
    }
}

/// Decides what the runner of a nested write does next: the steps run in
/// order, and the first that fails ends the write with its error.
pub fn next_nested_action(total: usize, completed: usize, failed: bool) -> (r: NestedAction)
    requires
        completed <= total,
    ensures
        r == nested_action(total as nat, completed as nat, failed),
{
    if failed {
        NestedAction::Stop
    } else if completed < total {
        NestedAction::Run(completed)
    } else {
        NestedAction::Done
    }
}

/// How many steps a runner that follows [`nested_action`] has run, from
/// `completed` on, when step `i` succeeds exactly when `outcomes[i]`.
pub open spec fn steps_run(total: nat, outcomes: Seq<bool>, completed: nat) -> nat
    decreases total - completed,
{
    if completed >= total {
        completed
    } else if nested_action(total, completed, false) is Run && !outcomes[completed as int] {
        completed + 1
    } else {
        steps_run(total, outcomes, completed + 1)
    }
}

/// A nested write runs its steps in order and stops at the first that
/// fails: the steps run are those up to and including the first failure,
/// or all of them; every step before the last one run succeeded.
pub proof fn law_nested_stops_at_first_failure(total: nat, outcomes: Seq<bool>, completed: nat)
    requires
        outcomes.len() == total,
        completed <= total,
    ensures
        completed <= steps_run(total, outcomes, completed) <= total,
        forall|i: int| completed <= i < steps_run(total, outcomes, completed) - 1 ==> #[trigger] outcomes[i],
        steps_run(total, outcomes, completed) < total ==> !outcomes[steps_run(total, outcomes, completed) - 1],
        steps_run(total, outcomes, completed) > completed && !outcomes[steps_run(total, outcomes, completed) - 1]
            ==> nested_action(total, steps_run(total, outcomes, completed), true) is Stop,
        (forall|i: int| completed <= i < total ==> #[trigger] outcomes[i]) ==> steps_run(total, outcomes, completed)
            == total,
    decreases total - completed,
{
    if completed < total {
        law_nested_stops_at_first_failure(total, outcomes, completed + 1);
    }
}

} // verus!
