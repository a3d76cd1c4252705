//! One-to-many relation writes: connect, disconnect and replace, where the
//! child table stores the foreign key.
use std::marker::PhantomData;

use vstd::prelude::*;

use crate::compile::{
    column_list, cond_clause, delete, delete_text, subquery_ok, update, update_text, CompiledSql, Compiler,
};
use crate::dialect::{quoted, str_views, Dialect};
use crate::error::{string_of, Error, ErrorView};
use crate::filter::FilterNode;
use crate::model::Model;
use crate::nested::{
    compiled_view, detach_all_statement, detach_all_view, link_statement, link_view, unlink_statement,
    unlink_view,
};
use crate::value::{views_of, Value, ValueView};

verus! {

/// The kind of one-to-many write.
#[derive(Debug, Clone, Copy, PartialEq, Eq)]
pub enum RelAction {
    /// Point the children at the parent.
    Connect,
    /// Clear the foreign key of those children that point at the parent.
    Disconnect,
    /// Clear the foreign key of every child of the parent, then connect.
    Replace,
}

/// A one-to-many write from a parent of model `M` to children of model `C`.
#[derive(Debug)]
pub struct RelWrite<M, C> {
    /// What the write does.
    pub action: RelAction,
    /// The child column that points at the parent.
    pub child_fk_col: &'static str,
    /// The child primary-key column.
    pub child_pk_col: &'static str,
    /// The primary keys of the children.
    pub pks: Vec<Value>,
    /// Ties the write to its models.
    pub _marker: PhantomData<(M, C)>,
}

/// The statements of a write, in the order they run.
pub open spec fn rel_views<M, C: Model>(w: RelWrite<M, C>, d: Dialect, parent: Value) -> Seq<(Seq<char>, Seq<ValueView>)> {
    let connect = link_view(d, C::TABLE, w.child_fk_col, w.child_pk_col, w.pks, parent);
    match w.action {
        RelAction::Connect => seq![connect],
        RelAction::Disconnect => seq![unlink_view(d, C::TABLE, w.child_fk_col, w.child_pk_col, w.pks, parent)],
        RelAction::Replace => seq![detach_all_view(d, C::TABLE, w.child_fk_col, parent), connect],
    }
}

impl<M: Model, C: Model> RelWrite<M, C> {
    /// Creates a one-to-many write.
    pub fn new(action: RelAction, child_fk_col: &'static str, child_pk_col: &'static str, pks: Vec<Value>) -> (r: Self)
        ensures
            r.action == action,
            r.child_fk_col == child_fk_col,
            r.child_pk_col == child_pk_col,
            r.pks == pks,
    {
        RelWrite { action, child_fk_col, child_pk_col, pks, _marker: PhantomData }
    }

    /// The statements that carry out the write for the parent whose primary
    /// key is `parent`, in the order they run.
    pub fn statements(&self, dialect: Dialect, parent: &Value) -> (r: Vec<CompiledSql>)
        ensures
            r@.map_values(|c: CompiledSql| compiled_view(c)) == rel_views(*self, dialect, *parent),
    {
        let mut out: Vec<CompiledSql> = Vec::new();
        match self.action {
            RelAction::Connect => {
                out.push(link_statement::<C>(dialect, C::TABLE, self.child_fk_col, self.child_pk_col, &self.pks, parent));
            },
            RelAction::Disconnect => {
                out.push(unlink_statement::<C>(dialect, C::TABLE, self.child_fk_col, self.child_pk_col, &self.pks, parent));
            },
            RelAction::Replace => {
                out.push(detach_all_statement::<C>(dialect, C::TABLE, self.child_fk_col, parent));
                out.push(link_statement::<C>(dialect, C::TABLE, self.child_fk_col, self.child_pk_col, &self.pks, parent));
            },
        }
        proof {
            assert(out@.map_values(|c: CompiledSql| compiled_view(c)) =~= rel_views(*self, dialect, *parent));
        }
        out
    }
}

/// What happens to the child rows of a deleted parent.
#[derive(Debug, Clone, Copy, PartialEq, Eq)]
pub enum DeleteAction {
    /// Leave them.
    NoAction,
    /// Refuse the delete while any exist.
    Restrict,
    /// Delete them too.
    Cascade,
    /// Clear their foreign key.
    SetNull,
    /// Reset their foreign key to its default; not supported.
    SetDefault,
}

/// A cascade rule: the children in `child_table` whose `child_fk_col`
/// points at a deleted parent get `action`.
#[derive(Debug, Clone, Copy, PartialEq, Eq)]
pub struct CascadeRule {
    /// The child table.
    pub child_table: &'static str,
    /// The columns of the child model; none reads every column.
    pub child_columns: &'static [&'static str],
    /// The child column that points at the parent.
    pub child_fk_col: &'static str,
    /// What happens to the children.
    pub action: DeleteAction,
}

/// What carrying out a cascade rule takes.
#[derive(Debug)]
pub enum CascadeStep {
    /// Nothing.
    Nothing,
    /// Run the statement; the rows it touches count toward the delete.
    Execute(CompiledSql),
    /// Run the probe; if it returns a row, refuse the delete with `message`.
    RefuseIfAny { probe: CompiledSql, message: String },
}

/// What a cascade step runs, by views.
pub enum CascadeView {
    /// Nothing.
    Nothing,
    /// A statement.
    Execute(Seq<char>, Seq<ValueView>),
    /// A probe, and the message to refuse with when it finds a row.
    RefuseIfAny(Seq<char>, Seq<ValueView>, Seq<char>),
}

/// What a step runs.
pub open spec fn cascade_view(s: CascadeStep) -> CascadeView {
    match s {
        CascadeStep::Nothing => CascadeView::Nothing,
        CascadeStep::Execute(c) => CascadeView::Execute(c.sql@, views_of(c.binds@)),
        CascadeStep::RefuseIfAny { probe, message } => CascadeView::RefuseIfAny(
            probe.sql@,
            views_of(probe.binds@),
            message@,
        ),
    }
}

/// The children of the parents that `parent_subquery` selects.
pub open spec fn children_of(rule: CascadeRule, parent_subquery: CompiledSql) -> FilterNode {
    FilterNode::InSubquery {
        table: rule.child_table,
        column: rule.child_fk_col,
        subquery: parent_subquery,
        negated: false,
    }
}

/// The message of a `SET DEFAULT` cascade.
pub open spec fn set_default_text() -> Seq<char> {
    "SET DEFAULT is not supported for cascaded deletes"@
}

/// The parent subquery can be spliced into each statement a rule may build.
pub open spec fn cascade_ok(d: Dialect, parent_subquery: CompiledSql) -> bool {
    subquery_ok(d, parent_subquery, 0) && subquery_ok(d, parent_subquery, 1)
}

/// The query that reads one child row that `f` keeps: by the child
/// model's columns, or every column when it lists none.
pub open spec fn probe_text(d: Dialect, rule: CascadeRule, f: FilterNode) -> (Seq<char>, Seq<ValueView>) {
    let w = cond_clause(d, " WHERE "@, f, 0);
    (
        "SELECT "@ + if rule.child_columns@.len() == 0 {
            "*"@
        } else {
            column_list(d, rule.child_table@, str_views(rule.child_columns@))
        } + " FROM "@ + quoted(d, rule.child_table@) + w.0 + " LIMIT 1"@,
        w.1,
    )
}

/// What the rule takes for the parents `parent_subquery` selects: nothing;
/// deleting the children; clearing their foreign key; or probing for one
/// child and refusing if there is one.
pub open spec fn cascade_plan(rule: CascadeRule, d: Dialect, parent_subquery: CompiledSql) -> CascadeView {
    let f = children_of(rule, parent_subquery);
    match rule.action {
        DeleteAction::NoAction => CascadeView::Nothing,
        DeleteAction::Cascade => {
            let t = delete_text(d, rule.child_table@, f, Seq::empty());
            CascadeView::Execute(t.0, t.1)
        },
        DeleteAction::SetNull => {
            let t = update_text(d, rule.child_table@, seq![(rule.child_fk_col, Value::Null)], f, Seq::empty());
            CascadeView::Execute(t.0, t.1)
        },
        DeleteAction::Restrict => {
            let t = probe_text(d, rule, f);
            CascadeView::RefuseIfAny(t.0, t.1, "cannot delete parent: child rows exist in "@ + rule.child_table@)
        },
        DeleteAction::SetDefault => CascadeView::Nothing,
    }
}

impl CascadeRule {
    /// What carrying out the rule takes for the parents `parent_subquery`
    /// selects; `SET DEFAULT` is refused.
    pub fn plan<M: Model>(&self, dialect: Dialect, parent_subquery: CompiledSql) -> (r: Result<CascadeStep, Error>)
        requires
            cascade_ok(dialect, parent_subquery),
        ensures
            self.action is SetDefault <==> r is Err,
            r matches Err(e) ==> e@ == ErrorView::Message(set_default_text()),
            r matches Ok(s) ==> cascade_view(s) == cascade_plan(*self, dialect, parent_subquery),
    {
        let none: Vec<&str> = Vec::new();
        proof {
            assert(none@ =~= Seq::<&str>::empty());
        }
        let f = FilterNode::InSubquery {
            table: self.child_table,
            column: self.child_fk_col,
            subquery: parent_subquery,
            negated: false,
        };
        match self.action {
            DeleteAction::NoAction => Ok(CascadeStep::Nothing),
            DeleteAction::Cascade => Ok(CascadeStep::Execute(delete::<M>(dialect, self.child_table, &f, none.as_slice()))),
            DeleteAction::SetNull => {
                let sets: Vec<(&'static str, Value)> = vec![(self.child_fk_col, Value::Null)];
                proof {
                    assert(sets@ =~= seq![(self.child_fk_col, Value::Null)]);
                }
                Ok(CascadeStep::Execute(update::<M>(dialect, self.child_table, sets.as_slice(), &f, none.as_slice())))
            },
            DeleteAction::Restrict => {
                let mut c = Compiler::new(dialect);
                c.push_str("SELECT ");
                if self.child_columns.len() == 0 {
                    c.push_str("*");
                } else {
                    c.push_column_list(self.child_table, self.child_columns);
                }
                c.push_str(" FROM ");
                c.push_quoted(self.child_table);
                c.push_cond(" WHERE ", &f);
                c.push_str(" LIMIT 1");
                let probe = c.finish();
                proof {
                    let t = probe_text(dialect, *self, f);
                    assert(probe.sql@ =~= t.0);
                    assert(views_of(probe.binds@) =~= t.1);
                }
                let mut message = string_of("cannot delete parent: child rows exist in ");
                message.append(self.child_table);
                Ok(CascadeStep::RefuseIfAny { probe, message })
            },
            DeleteAction::SetDefault => Err(Error::Message(string_of("SET DEFAULT is not supported for cascaded deletes"))),
        }
    }
}

/// A cascade from a deleted parent to its children of model `C`.
#[derive(Debug)]
pub struct DeleteCascade<C> {
    /// The child column that points at the parent.
    pub child_fk_col: &'static str,
    /// What happens to the children.
    pub action: DeleteAction,
    /// Ties the cascade to the child model.
    pub _marker: PhantomData<C>,
}

impl<C: Model> DeleteCascade<C> {
    /// Creates a cascade.
    pub fn new(child_fk_col: &'static str, action: DeleteAction) -> (r: Self)
        ensures
            r.child_fk_col == child_fk_col,
            r.action == action,
    {
        DeleteCascade { child_fk_col, action, _marker: PhantomData }
    }

    /// The rule this cascade applies, on the table of `C`.
    pub fn rule(&self) -> (r: CascadeRule)
        ensures
            r == (CascadeRule {
                child_table: C::TABLE,
                child_columns: C::COLUMNS,
                child_fk_col: self.child_fk_col,
                action: self.action,
            }),
    {
        CascadeRule {
            child_table: C::TABLE,
            child_columns: C::COLUMNS,
            child_fk_col: self.child_fk_col,
            action: self.action,
        }
    }
}


/// Connecting touches only the children named: the write is a single
/// `UPDATE` of the child table that sets the foreign key to the parent, its
/// binds the parent key followed by the child keys. Replacing, by contrast,
/// first clears the foreign key of every child of the parent (binds: `NULL`
/// and the parent key, for a parent key that is not `NULL`), then connects.
pub proof fn law_connect_single_update<M, C: Model>(w: RelWrite<M, C>, d: Dialect, parent: Value)
    ensures
        w.action is Connect ==> ({
            let v = rel_views(w, d, parent);
            &&& v.len() == 1
            &&& v[0].0.take(7) == "UPDATE "@
            &&& v[0].1 == seq![parent@] + views_of(w.pks@)
        }),
        w.action is Replace ==> ({
            let v = rel_views(w, d, parent);
            &&& v.len() == 2
            &&& !(parent is Null) ==> v[0].1 == seq![ValueView::Null, parent@]
            &&& v[1].1 == seq![parent@] + views_of(w.pks@)
        }),
{
    reveal_strlit("UPDATE ");
    let link = link_view(d, C::TABLE, w.child_fk_col, w.child_pk_col, w.pks, parent);
    assert(crate::compile::pair_values(seq![(w.child_fk_col, parent)]) =~= seq![parent@]);
    assert(crate::compile::pair_values(seq![(w.child_fk_col, Value::Null)]) =~= seq![ValueView::Null]);
    assert(link.0.take(7) =~= "UPDATE "@);
    let det = detach_all_view(d, C::TABLE, w.child_fk_col, parent);
    if !(parent is Null) {
        let f = crate::compile::filter_sql(d, crate::nested::fk_eq(C::TABLE, w.child_fk_col, parent), 1);
        assert(f.1 == seq![parent@]);
        assert(det.1 =~= seq![ValueView::Null, parent@]);
    }
    assert(link.1 =~= seq![parent@] + views_of(w.pks@));
}


/// Disconnecting clears only the named children that belong to the parent:
/// one `UPDATE` whose binds are `NULL`, the child keys, then the parent key
/// (for a parent key that is not `NULL`).
pub proof fn law_disconnect_only_own_children<M, C: Model>(w: RelWrite<M, C>, d: Dialect, parent: Value)
    requires
        w.action is Disconnect,
        !(parent is Null),
    ensures
        rel_views(w, d, parent).len() == 1,
        rel_views(w, d, parent)[0].0.take(7) == "UPDATE "@,
        rel_views(w, d, parent)[0].1 == seq![ValueView::Null] + views_of(w.pks@) + seq![parent@],
{
    reveal_strlit("UPDATE ");
    let u = unlink_view(d, C::TABLE, w.child_fk_col, w.child_pk_col, w.pks, parent);
    assert(u.0.take(7) =~= "UPDATE "@);
    let a = crate::compile::filter_sql(d, crate::nested::pk_in(C::TABLE, w.child_pk_col, w.pks), 1);
    let b = crate::compile::filter_sql(d, crate::nested::fk_eq(C::TABLE, w.child_fk_col, parent), 1 + a.1.len());
    assert(b.1 == seq![parent@]);
    assert(u.1 =~= seq![ValueView::Null] + views_of(w.pks@) + seq![parent@]);
}

} // verus!
