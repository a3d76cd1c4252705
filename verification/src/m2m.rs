//! Many-to-many relation writes: attach, replace and detach target rows
//! through an explicit join model.
//!
//! A write is carried out by the statements [`M2mWrite::statements`] lists,
//! run in order; for attach and replace the targets are then reloaded when
//! the statements touched a row and there are targets to load.
use std::marker::PhantomData;

use vstd::prelude::*;

use crate::compile::{
    delete, delete_text, filter_sql, insert_many, insert_many_text, name_list, pair_columns,
    pair_values, rows_binds, rows_text, select, select_text, bind_list, CompiledSql,
};
use crate::dialect::{quoted, Dialect};
use crate::filter::{is_trivial, CmpOp, FilterNode};
use crate::model::Model;
use crate::nested::{compiled_view, fk_eq, fk_eq_node, lemma_and_of_two, no_columns, pk_in, pk_in_node};
use crate::order::OrderBy;
use crate::value::{copy_value, lemma_views_of_index, views_of, Value, ValueView};

verus! {

/// The kind of many-to-many write.
#[derive(Debug, Clone, Copy, PartialEq, Eq)]
pub enum M2mAction {
    /// Add join rows for the targets, keeping existing ones.
    Attach,
    /// Remove every join row of the parent, then add the targets.
    Replace,
    /// Remove the join rows of the parent to the targets.
    Detach,
}

/// A many-to-many write from a parent of model `M` to targets of model `C`
/// through join rows of model `J`.
#[derive(Debug)]
pub struct M2mWrite<M, C, J> {
    /// What the write does.
    pub action: M2mAction,
    /// The join table.
    pub join_table: &'static str,
    /// The join column that holds the parent key.
    pub join_owner_col: &'static str,
    /// The join column that holds the target key.
    pub join_target_col: &'static str,
    /// The target table.
    pub target_table: &'static str,
    /// The target primary-key column.
    pub target_pk_col: &'static str,
    /// The primary keys of the targets.
    pub target_ids: Vec<Value>,
    /// Ties the write to its models.
    pub _marker: PhantomData<(M, C, J)>,
}

/// The binds of the join rows: the parent key and each target key, row by
/// row.
pub open spec fn join_row_binds(parent: ValueView, ids: Seq<ValueView>) -> Seq<ValueView>
    decreases ids.len(),
{
    if ids.len() == 0 {
        Seq::empty()
    } else {
        join_row_binds(parent, ids.drop_last()) + seq![parent, ids.last()]
    }
}

/// The `VALUES` rows of `n` two-column rows after `k` binds.
pub open spec fn pair_rows_text(d: Dialect, n: nat, k: nat) -> Seq<char>
    decreases n,
{
    if n == 0 {
        Seq::empty()
    } else {
        pair_rows_text(d, (n - 1) as nat, k) + if n == 1 {
            Seq::empty()
        } else {
            ", "@
        } + "("@ + bind_list(d, (k + 2 * (n - 1)) as nat, 2) + ")"@
    }
}

/// `DELETE` of every join row of the parent.
pub open spec fn clear_joins_view(
    d: Dialect,
    table: &'static str,
    owner: &'static str,
    parent: Value,
) -> (Seq<char>, Seq<ValueView>) {
    let t = delete_text(d, table@, fk_eq(table, owner, parent), Seq::empty());
    (t.0, t.1)
}

/// `DELETE` of the join rows from the parent to the targets `ids`.
pub open spec fn detach_view(
    d: Dialect,
    table: &'static str,
    owner: &'static str,
    target: &'static str,
    ids: Vec<Value>,
    parent: Value,
) -> (Seq<char>, Seq<ValueView>) {
    let a = filter_sql(d, fk_eq(table, owner, parent), 0);
    let b = filter_sql(d, pk_in(table, target, ids), a.1.len());
    (
        "DELETE FROM "@ + quoted(d, table@) + " WHERE "@ + "("@ + a.0 + " AND "@ + b.0 + ")"@
            + crate::compile::returning_clause(d, Seq::empty()),
        a.1 + b.1,
    )
}

/// `INSERT` of one join row from the parent to each target of `ids`.
pub open spec fn attach_view(
    d: Dialect,
    table: &'static str,
    owner: &'static str,
    target: &'static str,
    ids: Seq<ValueView>,
    parent: ValueView,
) -> (Seq<char>, Seq<ValueView>) {
    (
        "INSERT INTO "@ + quoted(d, table@) + " ("@ + name_list(d, seq![owner@, target@]) + ") VALUES "@
            + pair_rows_text(d, ids.len(), 0) + crate::compile::returning_clause(d, Seq::empty()),
        join_row_binds(parent, ids),
    )
}

/// `SELECT` of the targets `ids`.
pub open spec fn load_view<C: Model>(
    d: Dialect,
    table: &'static str,
    pk: &'static str,
    ids: Vec<Value>,
) -> (Seq<char>, Seq<ValueView>) {
    let t = select_text::<C>(d, table@, C::COLUMNS@, pk_in(table, pk, ids), Seq::<OrderBy<C>>::empty(), None, None, false);
    (t.0, t.1)
}

/// The statements of a write, in the order they run.
pub open spec fn write_views<M, C, J>(w: M2mWrite<M, C, J>, d: Dialect, parent: Value) -> Seq<(Seq<char>, Seq<ValueView>)> {
    let clear = clear_joins_view(d, w.join_table, w.join_owner_col, parent);
    let attach = attach_view(d, w.join_table, w.join_owner_col, w.join_target_col, views_of(w.target_ids@), parent@);
    let adds = if w.target_ids@.len() == 0 {
        Seq::empty()
    } else {
        seq![attach]
    };
    match w.action {
        M2mAction::Attach => adds,
        M2mAction::Replace => seq![clear] + adds,
        M2mAction::Detach => seq![detach_view(d, w.join_table, w.join_owner_col, w.join_target_col, w.target_ids, parent)],
    }
}

proof fn lemma_pair_rows(d: Dialect, rows: Seq<Vec<(&'static str, Value)>>, k: nat)
    requires
        forall|i: int| 0 <= i < rows.len() ==> (#[trigger] rows[i])@.len() == 2,
    ensures
        rows_text(d, rows, k) == pair_rows_text(d, rows.len(), k),
        rows_binds(rows).len() == 2 * rows.len(),
    decreases rows.len(),
{
    if rows.len() > 0 {
        let p = rows.drop_last();
        assert forall|i: int| 0 <= i < p.len() implies (#[trigger] p[i])@.len() == 2 by {
            assert(p[i] == rows[i]);
        }
        lemma_pair_rows(d, p, k);
        assert(rows.last() == rows[rows.len() - 1]);
        assert(pair_values(rows.last()@).len() == 2);
    }
}

impl<M, C: Model, J: Model> M2mWrite<M, C, J> {
    /// Creates a many-to-many write.
    pub fn new(
        action: M2mAction,
        join_table: &'static str,
        join_owner_col: &'static str,
        join_target_col: &'static str,
        target_table: &'static str,
        target_pk_col: &'static str,
        target_ids: Vec<Value>,
    ) -> (r: Self)
        ensures
            r.action == action,
            r.join_table == join_table,
            r.join_owner_col == join_owner_col,
            r.join_target_col == join_target_col,
            r.target_table == target_table,
            r.target_pk_col == target_pk_col,
            r.target_ids == target_ids,
    {
        M2mWrite {
            action,
            join_table,
            join_owner_col,
            join_target_col,
            target_table,
            target_pk_col,
            target_ids,
            _marker: PhantomData,
        }
    }

    /// Removes every join row of the parent.
    pub fn clear_joins_statement(&self, dialect: Dialect, parent: &Value) -> (r: CompiledSql)
        ensures
            compiled_view(r) == clear_joins_view(dialect, self.join_table, self.join_owner_col, *parent),
    {
        let node = fk_eq_node(self.join_table, self.join_owner_col, parent);
        let none = no_columns();
        proof {
            assert(filter_sql(dialect, node, 0) == filter_sql(dialect, fk_eq(self.join_table, self.join_owner_col, *parent), 0));
        }
        delete::<J>(dialect, self.join_table, &node, none.as_slice())
    }

    /// Removes the join rows from the parent to the targets.
    #[verifier::rlimit(40)]
    pub fn detach_statement(&self, dialect: Dialect, parent: &Value) -> (r: CompiledSql)
        ensures
            compiled_view(r) == detach_view(
                dialect,
                self.join_table,
                self.join_owner_col,
                self.join_target_col,
                self.target_ids,
                *parent,
            ),
    {
        let a = fk_eq_node(self.join_table, self.join_owner_col, parent);
        let b = pk_in_node(self.join_table, self.join_target_col, &self.target_ids);
        let mut v: Vec<FilterNode> = Vec::new();
        v.push(a);
        v.push(b);
        let node = FilterNode::And(v);
        let none = no_columns();
        proof {
            assert(v@ =~= seq![a, b]);
            lemma_and_of_two(dialect, node, a, b, 0);
            let fa = filter_sql(dialect, a, 0);
            assert(fa == filter_sql(dialect, fk_eq(self.join_table, self.join_owner_col, *parent), 0));
            assert(filter_sql(dialect, b, fa.1.len()) == filter_sql(
                dialect,
                pk_in(self.join_table, self.join_target_col, self.target_ids),
                fa.1.len(),
            ));
            assert(!is_trivial(node));
            assert(crate::dialect::str_views(none@) =~= Seq::<Seq<char>>::empty());
        }
        let r = delete::<J>(dialect, self.join_table, &node, none.as_slice());
        proof {
            let want = detach_view(
                dialect,
                self.join_table,
                self.join_owner_col,
                self.join_target_col,
                self.target_ids,
                *parent,
            );
            assert(r.sql@ =~= want.0);
            assert(views_of(r.binds@) =~= want.1);
        }
        r
    }

    /// Adds one join row from the parent to each target; `None` when there
    /// are no targets.
    pub fn attach_statement(&self, dialect: Dialect, parent: &Value) -> (r: Option<CompiledSql>)
        ensures
            self.target_ids@.len() == 0 <==> r is None,
            r matches Some(c) ==> compiled_view(c) == attach_view(
                dialect,
                self.join_table,
                self.join_owner_col,
                self.join_target_col,
                views_of(self.target_ids@),
                parent@,
            ),
    {
        if self.target_ids.len() == 0 {
            return None;
        }
        proof {
            lemma_views_of_index(self.target_ids@);
        }
        let ghost ids = views_of(self.target_ids@);
        let mut rows: Vec<Vec<(&'static str, Value)>> = Vec::new();
        let mut i: usize = 0;
        while i < self.target_ids.len()
            invariant
                i <= self.target_ids@.len(),
                ids == views_of(self.target_ids@),
                ids.len() == self.target_ids@.len(),
                forall|k: int| 0 <= k < self.target_ids@.len() ==> #[trigger] ids[k] == self.target_ids@[k]@,
                rows@.len() == i,
                forall|k: int| 0 <= k < i ==> (#[trigger] rows@[k])@.len() == 2,
                forall|k: int| 0 <= k < i ==> pair_columns((#[trigger] rows@[k])@) == seq![self.join_owner_col@, self.join_target_col@],
                rows_binds(rows@) == join_row_binds(parent@, ids.take(i as int)),
            decreases self.target_ids@.len() - i,
        {
            let mut row: Vec<(&'static str, Value)> = Vec::new();
            row.push((self.join_owner_col, copy_value(parent)));
            row.push((self.join_target_col, copy_value(&self.target_ids[i])));
            let ghost before = rows@;
            rows.push(row);
            proof {
                assert(pair_columns(row@) =~= seq![self.join_owner_col@, self.join_target_col@]);
                assert(pair_values(row@) =~= seq![parent@, ids[i as int]]);
                assert(rows@.drop_last() =~= before);
                assert(ids.take(i + 1).drop_last() =~= ids.take(i as int));
                assert(ids.take(i + 1).last() == ids[i as int]);
            }
            i = i + 1;
        }
        let none = no_columns();
        let r = insert_many::<J>(dialect, self.join_table, rows.as_slice(), none.as_slice());
        proof {
            lemma_pair_rows(dialect, rows@, 0);
            assert(ids.take(ids.len() as int) =~= ids);
            assert(rows@[0]@.len() == 2);
        }
        Some(r)
    }

    /// Loads the targets.
    pub fn load_targets_statement(&self, dialect: Dialect) -> (r: CompiledSql)
        ensures
            compiled_view(r) == load_view::<C>(dialect, self.target_table, self.target_pk_col, self.target_ids),
    {
        let node = pk_in_node(self.target_table, self.target_pk_col, &self.target_ids);
        let order: Vec<OrderBy<C>> = Vec::new();
        proof {
            assert(order@ =~= Seq::<OrderBy<C>>::empty());
            assert(filter_sql(dialect, node, 0) == filter_sql(
                dialect,
                pk_in(self.target_table, self.target_pk_col, self.target_ids),
                0,
            ));
        }
        select::<C>(dialect, self.target_table, C::COLUMNS, &node, order.as_slice(), None, None, false)
    }

    /// The statements that carry out the write for the parent whose primary
    /// key is `parent`, in the order they run.
    pub fn statements(&self, dialect: Dialect, parent: &Value) -> (r: Vec<CompiledSql>)
        ensures
            r@.map_values(|c: CompiledSql| compiled_view(c)) == write_views(*self, dialect, *parent),
    {
        let mut out: Vec<CompiledSql> = Vec::new();
        match self.action {
            M2mAction::Replace => {
                out.push(self.clear_joins_statement(dialect, parent));
                if let Some(c) = self.attach_statement(dialect, parent) {
                    out.push(c);
                }
            },
            M2mAction::Attach => {
                if let Some(c) = self.attach_statement(dialect, parent) {
                    out.push(c);
                }
            },
            M2mAction::Detach => {
                out.push(self.detach_statement(dialect, parent));
            },
        }
        proof {
            assert(out@.map_values(|c: CompiledSql| compiled_view(c)) =~= write_views(*self, dialect, *parent));
        }
        out
    }

    /// Whether the targets are reloaded after the statements ran and touched
    /// `affected` rows: only for attach and replace, when a row was touched
    /// and there are targets.
    pub fn reloads_targets(&self, affected: u64) -> (r: bool)
        ensures
            r == (!(self.action is Detach) && affected > 0 && self.target_ids@.len() > 0),
    {
        !matches!(self.action, M2mAction::Detach) && affected > 0 && self.target_ids.len() > 0
    }
}


/// The join-row binds pair the parent with each target in turn.
proof fn lemma_join_row_binds(parent: ValueView, ids: Seq<ValueView>)
    ensures
        join_row_binds(parent, ids).len() == 2 * ids.len(),
        forall|t: int| 0 <= t < ids.len() ==> #[trigger] join_row_binds(parent, ids)[2 * t] == parent,
        forall|t: int| 0 <= t < ids.len() ==> #[trigger] join_row_binds(parent, ids)[2 * t + 1] == ids[t],
    decreases ids.len(),
{
    if ids.len() > 0 {
        let init = ids.drop_last();
        lemma_join_row_binds(parent, init);
        let b = join_row_binds(parent, ids);
        let b0 = join_row_binds(parent, init);
        assert(b == b0 + seq![parent, ids.last()]);
        assert forall|t: int| 0 <= t < ids.len() implies #[trigger] b[2 * t] == parent by {
            if t < init.len() {
                assert(b[2 * t] == b0[2 * t]);
            }
        }
        assert forall|t: int| 0 <= t < ids.len() implies #[trigger] b[2 * t + 1] == ids[t] by {
            if t < init.len() {
                assert(b[2 * t + 1] == b0[2 * t + 1]);
                assert(init[t] == ids[t]);
            }
        }
    }
}

/// Attaching keeps the parent's existing join rows: the write deletes
/// nothing, and is one `INSERT` of a row `(parent, target)` for each target
/// in turn, or nothing at all when there are no targets. Replacing, by
/// contrast, starts by deleting.
pub proof fn law_attach_keeps_existing_rows<M, C, J>(w: M2mWrite<M, C, J>, d: Dialect, parent: Value)
    ensures
        w.action is Attach ==> ({
            let v = write_views(w, d, parent);
            let n = w.target_ids@.len();
            &&& v.len() == if n == 0 {
                0nat
            } else {
                1nat
            }
            &&& forall|i: int| 0 <= i < v.len() ==> (#[trigger] v[i]).0.take(12) == "INSERT INTO "@
            &&& forall|i: int| 0 <= i < v.len() ==> (#[trigger] v[i]).1.len() == 2 * n
            &&& forall|i: int, t: int| 0 <= i < v.len() && 0 <= t < n ==> #[trigger] v[i].1[2 * t] == parent@
            &&& forall|i: int, t: int|
                0 <= i < v.len() && 0 <= t < n ==> #[trigger] v[i].1[2 * t + 1] == w.target_ids@[t]@
        }),
        w.action is Replace ==> write_views(w, d, parent)[0].0.take(12) == "DELETE FROM "@,
{
    reveal_strlit("INSERT INTO ");
    reveal_strlit("DELETE FROM ");
    let ids = views_of(w.target_ids@);
    lemma_views_of_index(w.target_ids@);
    lemma_join_row_binds(parent@, ids);
    let a = attach_view(d, w.join_table, w.join_owner_col, w.join_target_col, ids, parent@);
    assert(a.0.take(12) =~= "INSERT INTO "@);
    let c = clear_joins_view(d, w.join_table, w.join_owner_col, parent);
    assert(c.0.take(12) =~= "DELETE FROM "@);
}


/// Detaching deletes only join rows of the parent to the targets named:
/// one `DELETE` whose binds are the parent key followed by the target keys
/// (for a parent key that is not `NULL`).
pub proof fn law_detach_only_named_rows<M, C, J>(w: M2mWrite<M, C, J>, d: Dialect, parent: Value)
    requires
        w.action is Detach,
        !(parent is Null),
    ensures
        write_views(w, d, parent).len() == 1,
        write_views(w, d, parent)[0].0.take(12) == "DELETE FROM "@,
        write_views(w, d, parent)[0].1 == seq![parent@] + views_of(w.target_ids@),
{
    reveal_strlit("DELETE FROM ");
    let v = detach_view(d, w.join_table, w.join_owner_col, w.join_target_col, w.target_ids, parent);
    assert(v.0.take(12) =~= "DELETE FROM "@);
    let a = filter_sql(d, fk_eq(w.join_table, w.join_owner_col, parent), 0);
    assert(a.1 == seq![parent@]);
    assert(v.1 =~= seq![parent@] + views_of(w.target_ids@));
}

} // verus!
