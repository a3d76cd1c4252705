//! Typed write builders: `INSERT` (with upsert), multi-row `INSERT`,
//! `UPDATE` and `DELETE`, compiled for a dialect.
//!
//! `UPDATE` and `DELETE` refuse to touch every row unless asked to with
//! `all_rows`.
use std::marker::PhantomData;

use vstd::prelude::*;

use crate::col::{converted, Column};
use crate::compile::{
    delete, delete_text, insert, insert_text, pair_values, update, update_text, upsert, upsert_text,
    CompiledSql,
};
use crate::dialect::{dialect_name, placeholder_text, quoted, Dialect};
use crate::cache::duration_nanos;
use crate::error::{opt_text, same_text, string_of, Error, ErrorView};
use std::time::{Duration, SystemTime, UNIX_EPOCH};
use crate::text::{decimal, decimal_string};
use crate::filter::{flat_children, is_trivial, Filter, FilterNode};
use crate::model::Model;
use crate::query::{query_ok, query_text, SelectQuery, SelectView};
use crate::rel::{
    cascade_ok, cascade_plan, cascade_view, set_default_text, CascadeRule, CascadeStep, DeleteAction,
    DeleteCascade,
};
use crate::value::{copy_value, views_of, Encodable, Value, ValueView};

verus! {

/// What an [`InsertQuery`] holds.
pub struct InsertView {
    /// The target dialect.
    pub dialect: Dialect,
    /// The columns and their values, in the order they were set.
    pub values: Seq<(&'static str, Value)>,
    /// The conflict target of an upsert, if any.
    pub on_conflict: Option<Seq<&'static str>>,
    /// The columns an upsert updates on conflict, if given.
    pub do_update: Option<Seq<&'static str>>,
}

/// A typed `INSERT` of one row of model `M`, optionally an upsert.
pub struct InsertQuery<M> {
    dialect: Dialect,
    values: Vec<(&'static str, Value)>,
    on_conflict: Option<Vec<&'static str>>,
    do_update: Option<Vec<&'static str>>,
    _marker: PhantomData<M>,
}

impl<M> View for InsertQuery<M> {
    type V = InsertView;

    closed spec fn view(&self) -> InsertView {
        InsertView {
            dialect: self.dialect,
            values: self.values@,
            on_conflict: match self.on_conflict {
                Some(c) => Some(c@),
                None => None,
            },
            do_update: match self.do_update {
                Some(u) => Some(u@),
                None => None,
            },
        }
    }
}

/// The statement an insert compiles to: an upsert when a conflict target is
/// set (updating the `do_update` columns, none if not given), a plain
/// insert otherwise.
pub open spec fn insert_query_text<M: Model>(q: InsertView) -> Seq<char> {
    match q.on_conflict {
        Some(c) => upsert_text(
            q.dialect,
            M::TABLE@,
            q.values,
            c,
            match q.do_update {
                Some(u) => u,
                None => Seq::empty(),
            },
            Seq::empty(),
        ),
        None => insert_text(q.dialect, M::TABLE@, q.values, Seq::empty()),
    }
}

impl<M: Model> InsertQuery<M> {
    /// Creates an insert with no columns, for `dialect`.
    pub fn new(dialect: Dialect) -> (r: Self)
        ensures
            r@ == (InsertView { dialect, values: Seq::empty(), on_conflict: None, do_update: None }),
    {
        let r = InsertQuery { dialect, values: Vec::new(), on_conflict: None, do_update: None, _marker: PhantomData };
        proof {
            assert(r@.values =~= Seq::<(&'static str, Value)>::empty());
        }
        r
    }

    /// Sets a column to a value.
    pub fn set<T: Encodable, V: Into<T>>(self, col: Column<M, T>, value: V) -> (r: Self)
        ensures
            r@ == (InsertView { values: r@.values, ..self@ }),
            r@.values.drop_last() == self@.values,
            r@.values.len() == self@.values.len() + 1,
            r@.values.last().0 == col.column,
            converted::<V, T>(value, r@.values.last().1@),
    {
        let t: T = value.into();
        let v = t.to_value();
        let mut values = self.values;
        let ghost before = values@;
        values.push((col.column, v));
        proof {
            assert(values@.drop_last() =~= before);
        }
        InsertQuery { values, ..self }
    }

    /// Sets a column only if `value` is `Some`.
    pub fn set_optional<T: Encodable, V: Into<T>>(self, col: Column<M, T>, value: Option<V>) -> (r: Self)
        ensures
            value is None ==> r@ == self@,
            value matches Some(x) ==> r@ == (InsertView { values: r@.values, ..self@ })
                && r@.values.drop_last() == self@.values && r@.values.len() == self@.values.len() + 1
                && r@.values.last().0 == col.column && converted::<V, T>(x, r@.values.last().1@),
    {
        match value {
            Some(x) => self.set(col, x),
            None => self,
        }
    }

    /// The same as [`set_optional`](Self::set_optional).
    pub fn set_if<T: Encodable, V: Into<T>>(self, col: Column<M, T>, value: Option<V>) -> (r: Self)
        ensures
            value is None ==> r@ == self@,
            value matches Some(x) ==> r@ == (InsertView { values: r@.values, ..self@ })
                && r@.values.drop_last() == self@.values && r@.values.len() == self@.values.len() + 1
                && r@.values.last().0 == col.column && converted::<V, T>(x, r@.values.last().1@),
    {
        self.set_optional(col, value)
    }

    /// Sets the conflict target, making the insert an upsert.
    pub fn on_conflict(self, cols: Vec<&'static str>) -> (r: Self)
        ensures
            r@ == (InsertView { on_conflict: Some(cols@), ..self@ }),
    {
        InsertQuery { on_conflict: Some(cols), ..self }
    }

    /// Sets the columns an upsert updates on conflict.
    pub fn do_update(self, cols: Vec<&'static str>) -> (r: Self)
        ensures
            r@ == (InsertView { do_update: Some(cols@), ..self@ }),
    {
        InsertQuery { do_update: Some(cols), ..self }
    }

    /// Compiles the insert so that it returns the inserted row by
    /// [`many_returning`] (where the dialect can return rows).
    pub fn to_sql_returning(&self) -> (r: CompiledSql)
        ensures
            r.sql@ == match self@.on_conflict {
                Some(c) => upsert_text(
                    self@.dialect,
                    M::TABLE@,
                    self@.values,
                    c,
                    match self@.do_update {
                        Some(u) => u,
                        None => Seq::empty(),
                    },
                    many_returning::<M>(),
                ),
                None => insert_text(self@.dialect, M::TABLE@, self@.values, many_returning::<M>()),
            },
            views_of(r.binds@) == pair_values(self@.values),
    {
        let none: Vec<&str> = Vec::new();
        let star: Vec<&'static str> = vec!["*"];
        let returning: &[&'static str] = if M::COLUMNS.len() == 0 {
            star.as_slice()
        } else {
            M::COLUMNS
        };
        proof {
            assert(returning@ == many_returning::<M>());
            assert(none@ =~= Seq::<&str>::empty());
        }
        match &self.on_conflict {
            Some(conflict) => match &self.do_update {
                Some(u) => upsert::<M>(
                    self.dialect,
                    M::TABLE,
                    self.values.as_slice(),
                    conflict.as_slice(),
                    u.as_slice(),
                    returning,
                ),
                None => upsert::<M>(
                    self.dialect,
                    M::TABLE,
                    self.values.as_slice(),
                    conflict.as_slice(),
                    none.as_slice(),
                    returning,
                ),
            },
            None => insert::<M>(self.dialect, M::TABLE, self.values.as_slice(), returning),
        }
    }

    /// Compiles the insert.
    pub fn to_sql(&self) -> (r: CompiledSql)
        ensures
            r.sql@ == insert_query_text::<M>(self@),
            views_of(r.binds@) == pair_values(self@.values),
    {
        let none: Vec<&str> = Vec::new();
        match &self.on_conflict {
            Some(conflict) => {
                let c = match &self.do_update {
                    Some(u) => upsert::<M>(
                        self.dialect,
                        M::TABLE,
                        self.values.as_slice(),
                        conflict.as_slice(),
                        u.as_slice(),
                        none.as_slice(),
                    ),
                    None => upsert::<M>(
                        self.dialect,
                        M::TABLE,
                        self.values.as_slice(),
                        conflict.as_slice(),
                        none.as_slice(),
                        none.as_slice(),
                    ),
                };
                proof {
                    assert(none@ =~= Seq::<&str>::empty());
                }
                c
            },
            None => {
                let c = insert::<M>(self.dialect, M::TABLE, self.values.as_slice(), none.as_slice());
                proof {
                    assert(none@ =~= Seq::<&str>::empty());
                }
                c
            },
        }
    }
}

/// The row an `INSERT ... RETURNING` answered: its last row; refused when
/// none came back.
pub fn inserted_row<T>(rows: Vec<T>) -> (r: Result<T, Error>)
    ensures
        rows@.len() == 0 <==> r is Err,
        r matches Ok(x) ==> x == rows@.last(),
        r matches Err(e) ==> e@ == ErrorView::Message("INSERT RETURNING returned no row"@),
{
    let mut rows = rows;
    match rows.pop() {
        Some(x) => Ok(x),
        None => Err(Error::Message(string_of("INSERT RETURNING returned no row"))),
    }
}

/// What an [`UpdateQuery`] holds.
pub struct UpdateView {
    /// The target dialect.
    pub dialect: Dialect,
    /// The columns and their new values, in the order they were set.
    pub sets: Seq<(&'static str, Value)>,
    /// The filter.
    pub filter: FilterNode,
    /// Whether the update may touch every row.
    pub all_rows: bool,
}

/// A typed `UPDATE` on model `M`.
pub struct UpdateQuery<M> {
    dialect: Dialect,
    sets: Vec<(&'static str, Value)>,
    filter: Filter<M>,
    all_rows: bool,
}

impl<M> View for UpdateQuery<M> {
    type V = UpdateView;

    closed spec fn view(&self) -> UpdateView {
        UpdateView { dialect: self.dialect, sets: self.sets@, filter: self.filter.node, all_rows: self.all_rows }
    }
}

/// The message of an update with no filter that was not allowed to touch
/// every row.
pub open spec fn update_unfiltered_text() -> Seq<char> {
    "update has no filter; call .all_rows() to update every row"@
}

/// The message of an update that sets nothing.
pub open spec fn update_empty_text() -> Seq<char> {
    "update has no columns to set"@
}

/// The error an update is refused with, if any: no filter without
/// `all_rows` first, then no columns to set.
pub open spec fn update_error(q: UpdateView) -> Option<Seq<char>> {
    if !q.all_rows && is_trivial(q.filter) {
        Some(update_unfiltered_text())
    } else if q.sets.len() == 0 {
        Some(update_empty_text())
    } else {
        None
    }
}

/// The message of a soft delete on a model without a deleted-at column.
pub open spec fn no_soft_delete_text(table: Seq<char>) -> Seq<char> {
    "Model '"@ + table + "' does not have a @deletedAt column configured"@
}

#[verifier::external_type_specification]
#[verifier::external_body]
pub struct ExSystemTime(SystemTime);

/// Reads the system clock through `std::time::SystemTime::now`; nothing is
/// stated of the time it returns.
#[verifier::external_body]
fn system_now() -> (r: SystemTime) {
    SystemTime::now()
}

/// The time from the Unix epoch to `t`, through
/// `std::time::SystemTime::duration_since`; none when `t` is before the
/// epoch. `SystemTime` is opaque here, so nothing more is stated.
#[verifier::external_body]
fn since_unix_epoch(t: &SystemTime) -> (r: Option<Duration>) {
    t.duration_since(UNIX_EPOCH).ok()
}

/// The RFC 3339 text of the UTC instant `secs` seconds and `nanos`
/// nanoseconds after the Unix epoch, as `chrono::DateTime::from_timestamp`
/// and `DateTime::to_rfc3339` give it; none outside chrono's range.
pub uninterp spec fn utc_rfc3339(secs: i64, nanos: u32) -> Option<Seq<char>>;

/// The RFC 3339 text of a UTC instant, through
/// `chrono::DateTime::from_timestamp` and `DateTime::to_rfc3339`: the named
/// value [`utc_rfc3339`].
#[verifier::external_body]
fn rfc3339_at(secs: i64, nanos: u32) -> (r: Option<String>)
    ensures
        opt_text(r) == utc_rfc3339(secs, nanos),
{
    match chrono::DateTime::from_timestamp(secs, nanos) {
        Some(d) => Some(d.to_rfc3339()),
        None => None,
    }
}

/// The current UTC time as RFC 3339 text; none when the clock reads before
/// the Unix epoch or beyond the instants chrono can hold.
fn utc_now_text() -> (r: Option<String>)
    ensures
        r matches Some(t) ==> exists|secs: i64, nanos: u32|
            nanos < 1_000_000_000 && #[trigger] utc_rfc3339(secs, nanos) == Some(t@),
{
    let t = system_now();
    match since_unix_epoch(&t) {
        None => None,
        Some(d) => {
            let n = duration_nanos(&d);
            let secs = n / 1_000_000_000;
            if secs > 0x7fff_ffff_ffff_ffffu128 {
                return None;
            }
            let nanos = (n % 1_000_000_000) as u32;
            let r = rfc3339_at(secs as i64, nanos);
            proof {
                if r is Some {
                    assert(utc_rfc3339(secs as i64, nanos) == Some(r->Some_0@));
                }
            }
            r
        },
    }
}

/// The message of a soft delete when the clock gives no representable time.
pub open spec fn clock_error_text() -> Seq<char> {
    "the system clock does not give a representable UTC time"@
}

impl<M: Model> UpdateQuery<M> {
    /// Creates an update with no filter and no columns, for `dialect`.
    pub fn new(dialect: Dialect) -> (r: Self)
        ensures
            r@.dialect == dialect,
            r@.sets.len() == 0,
            is_trivial(r@.filter),
            !r@.all_rows,
    {
        UpdateQuery { dialect, sets: Vec::new(), filter: Filter::new(FilterNode::And(Vec::new())), all_rows: false }
    }

    /// Adds a filter with `AND`.
    pub fn filter(self, f: Filter<M>) -> (r: Self)
        ensures
            r@.filter matches FilterNode::And(v) && v@ == flat_children(seq![self@.filter, f.node], true),
            r@ == (UpdateView { filter: r@.filter, ..self@ }),
    {
        UpdateQuery { filter: self.filter.and(f), ..self }
    }

    /// The same as [`filter`](Self::filter).
    pub fn where_clause(self, f: Filter<M>) -> (r: Self)
        ensures
            r@.filter matches FilterNode::And(v) && v@ == flat_children(seq![self@.filter, f.node], true),
            r@ == (UpdateView { filter: r@.filter, ..self@ }),
    {
        self.filter(f)
    }

    /// Adds a filter when one is given; with none, allows the update to
    /// touch every row.
    pub fn filter_if(self, f: Option<Filter<M>>) -> (r: Self)
        ensures
            f is None ==> r@ == (UpdateView { all_rows: true, ..self@ }),
            f matches Some(g) ==> (r@.filter matches FilterNode::And(v) && v@ == flat_children(
                seq![self@.filter, g.node],
                true,
            )) && r@ == (UpdateView { filter: r@.filter, ..self@ }),
    {
        match f {
            Some(g) => self.filter(g),
            None => UpdateQuery { all_rows: true, ..self },
        }
    }

    /// Sets a column to a value.
    pub fn set<T: Encodable, V: Into<T>>(self, col: Column<M, T>, value: V) -> (r: Self)
        ensures
            r@ == (UpdateView { sets: r@.sets, ..self@ }),
            r@.sets.drop_last() == self@.sets,
            r@.sets.len() == self@.sets.len() + 1,
            r@.sets.last().0 == col.column,
            converted::<V, T>(value, r@.sets.last().1@),
    {
        let t: T = value.into();
        let v = t.to_value();
        let mut sets = self.sets;
        let ghost before = sets@;
        sets.push((col.column, v));
        proof {
            assert(sets@.drop_last() =~= before);
        }
        UpdateQuery { sets, ..self }
    }

    /// Sets a column to `NULL`.
    pub fn set_null<T>(self, col: Column<M, T>) -> (r: Self)
        ensures
            r@ == (UpdateView { sets: self@.sets.push((col.column, Value::Null)), ..self@ }),
    {
        let mut sets = self.sets;
        sets.push((col.column, Value::Null));
        UpdateQuery { sets, ..self }
    }

    /// Sets a column only if `value` is `Some`.
    pub fn set_if<T: Encodable, V: Into<T>>(self, col: Column<M, T>, value: Option<V>) -> (r: Self)
        ensures
            value is None ==> r@ == self@,
            value matches Some(x) ==> r@ == (UpdateView { sets: r@.sets, ..self@ })
                && r@.sets.drop_last() == self@.sets && r@.sets.len() == self@.sets.len() + 1
                && r@.sets.last().0 == col.column && converted::<V, T>(x, r@.sets.last().1@),
    {
        match value {
            Some(x) => self.set(col, x),
            None => self,
        }
    }

    /// Allows the update to touch every row.
    pub fn all_rows(self) -> (r: Self)
        ensures
            r@ == (UpdateView { all_rows: true, ..self@ }),
    {
        UpdateQuery { all_rows: true, ..self }
    }

    /// Sets the model's deleted-at column to `now`; refused on a model
    /// without one.
    pub fn soft_delete_at(self, now: String) -> (r: Result<Self, Error>)
        ensures
            M::DELETED_AT_COLUMN is None <==> r is Err,
            r matches Err(e) ==> e@ == ErrorView::Message(no_soft_delete_text(M::TABLE@)),
            r matches Ok(q) ==> q@ == (UpdateView {
                sets: self@.sets.push((M::DELETED_AT_COLUMN->0, Value::Str(now))),
                ..self@
            }),
    {
        match M::DELETED_AT_COLUMN {
            Some(col) => {
                let mut sets = self.sets;
                sets.push((col, Value::Str(now)));
                Ok(UpdateQuery { sets, ..self })
            },
            None => {
                let mut m = string_of("Model '");
                m.append(M::TABLE);
                m.append("' does not have a @deletedAt column configured");
                Err(Error::Message(m))
            },
        }
    }

    /// Sets the model's deleted-at column to the current time; refused on a
    /// model without one.
    pub fn soft_delete(self) -> (r: Result<Self, Error>)
        ensures
            M::DELETED_AT_COLUMN is None ==> (r matches Err(e) && e@ == ErrorView::Message(
                no_soft_delete_text(M::TABLE@),
            )),
            M::DELETED_AT_COLUMN is Some ==> match r {
                Ok(q) => q@ == (UpdateView { sets: q@.sets, ..self@ }) && q@.sets.drop_last() == self@.sets
                    && q@.sets.len() == self@.sets.len() + 1 && q@.sets.last().0 == M::DELETED_AT_COLUMN->0
                    && exists|secs: i64, nanos: u32|
                    nanos < 1_000_000_000 && #[trigger] utc_rfc3339(secs, nanos) == Some(
                        q@.sets.last().1->Str_0@,
                    ) && q@.sets.last().1 is Str,
                Err(e) => e@ == ErrorView::Message(clock_error_text()),
            },
    {
        if M::DELETED_AT_COLUMN.is_none() {
            return self.soft_delete_at(String::new());
        }
        match utc_now_text() {
            None => Err(Error::Message(string_of("the system clock does not give a representable UTC time"))),
            Some(now) => {
                let ghost t = now@;
                let r = self.soft_delete_at(now);
                proof {
                    if r is Ok {
                        assert(r->Ok_0@.sets.drop_last() =~= self@.sets);
                        assert(r->Ok_0@.sets.last().1->Str_0@ == t);
                    }
                }
                r
            },
        }
    }

    /// Compiles the update; refused without a filter unless `all_rows` was
    /// asked for, and with no columns to set.
    pub fn to_sql(&self) -> (r: Result<CompiledSql, Error>)
        requires
            update_error(self@) is None ==> update_text(self@.dialect, M::TABLE@, self@.sets, self@.filter, Seq::empty()).2,
        ensures
            update_error(self@) is None <==> r is Ok,
            r matches Err(e) ==> e@ == ErrorView::Message(update_error(self@)->0),
            r matches Ok(c) ==> ({
                let t = update_text(self@.dialect, M::TABLE@, self@.sets, self@.filter, Seq::empty());
                c.sql@ == t.0 && views_of(c.binds@) == t.1
            }),
    {
        let trivial = match &self.filter.node {
            FilterNode::And(v) => v.len() == 0,
            _ => false,
        };
        if !self.all_rows && trivial {
            return Err(Error::Message(string_of("update has no filter; call .all_rows() to update every row")));
        }
        if self.sets.len() == 0 {
            return Err(Error::Message(string_of("update has no columns to set")));
        }
        let none: Vec<&str> = Vec::new();
        proof {
            assert(none@ =~= Seq::<&str>::empty());
        }
        Ok(update::<M>(self.dialect, M::TABLE, self.sets.as_slice(), &self.filter.node, none.as_slice()))
    }
}

/// Marks a [`DeleteQuery`] that has neither a filter nor `all_rows`; it
/// cannot be compiled.
pub struct UnfilteredDelete;

/// Marks a [`DeleteQuery`] that may be compiled.
pub struct FilteredDelete;

/// What a [`DeleteQuery`] holds.
pub struct DeleteView {
    /// The target dialect.
    pub dialect: Dialect,
    /// The filter.
    pub filter: FilterNode,
    /// Whether the delete may remove every row.
    pub all_rows: bool,
    /// The cascade rules, in the order they run.
    pub cascades: Seq<CascadeRule>,
}

/// A typed `DELETE` on model `M`. Only a query marked [`FilteredDelete`],
/// reached by `filter` or `all_rows`, compiles.
pub struct DeleteQuery<M, S> {
    dialect: Dialect,
    filter: Filter<M>,
    all_rows: bool,
    cascades: Vec<CascadeRule>,
    _state: PhantomData<S>,
}

impl<M, S> View for DeleteQuery<M, S> {
    type V = DeleteView;

    closed spec fn view(&self) -> DeleteView {
        DeleteView { dialect: self.dialect, filter: self.filter.node, all_rows: self.all_rows, cascades: self.cascades@ }
    }
}

/// The message of a delete with no filter that was not allowed to remove
/// every row.
pub open spec fn delete_unfiltered_text() -> Seq<char> {
    "delete has no filter; call .all_rows() to delete every row"@
}

impl<M: Model> DeleteQuery<M, UnfilteredDelete> {
    /// Creates a delete with no filter, for `dialect`.
    pub fn new(dialect: Dialect) -> (r: Self)
        ensures
            r@.dialect == dialect,
            is_trivial(r@.filter),
            !r@.all_rows,
            r@.cascades.len() == 0,
    {
        DeleteQuery {
            dialect,
            filter: Filter::new(FilterNode::And(Vec::new())),
            all_rows: false,
            cascades: Vec::new(),
            _state: PhantomData,
        }
    }

    /// Adds a filter.
    pub fn filter(self, f: Filter<M>) -> (r: DeleteQuery<M, FilteredDelete>)
        ensures
            r@.filter matches FilterNode::And(v) && v@ == flat_children(seq![self@.filter, f.node], true),
            r@ == (DeleteView { filter: r@.filter, all_rows: false, ..self@ }),
    {
        DeleteQuery {
            dialect: self.dialect,
            filter: self.filter.and(f),
            all_rows: false,
            cascades: self.cascades,
            _state: PhantomData,
        }
    }

    /// Adds a filter when one is given; with none, allows the delete to
    /// remove every row.
    pub fn filter_if(self, f: Option<Filter<M>>) -> (r: DeleteQuery<M, FilteredDelete>)
        ensures
            f is None ==> r@ == (DeleteView { all_rows: true, ..self@ }),
            f matches Some(g) ==> (r@.filter matches FilterNode::And(v) && v@ == flat_children(
                seq![self@.filter, g.node],
                true,
            )) && r@ == (DeleteView { filter: r@.filter, all_rows: false, ..self@ }),
    {
        match f {
            Some(g) => self.filter(g),
            None => self.all_rows(),
        }
    }

    /// Allows the delete to remove every row.
    pub fn all_rows(self) -> (r: DeleteQuery<M, FilteredDelete>)
        ensures
            r@ == (DeleteView { all_rows: true, ..self@ }),
    {
        DeleteQuery {
            dialect: self.dialect,
            filter: self.filter,
            all_rows: true,
            cascades: self.cascades,
            _state: PhantomData,
        }
    }

    /// Cascades the delete to the children of model `C` whose
    /// `child_fk_col` points at a deleted row.
    pub fn cascade<C: Model>(self, child_fk_col: &'static str, action: DeleteAction) -> (r: Self)
        ensures
            r@ == (DeleteView {
                cascades: self@.cascades.push(
                    CascadeRule { child_table: C::TABLE, child_columns: C::COLUMNS, child_fk_col, action },
                ),
                ..self@
            }),
    {
        let mut cascades = self.cascades;
        cascades.push(DeleteCascade::<C>::new(child_fk_col, action).rule());
        DeleteQuery { cascades, ..self }
    }
}

/// The statements a delete runs: first the cascade steps, in order, then
/// the delete.
#[derive(Debug)]
pub struct DeletePlan {
    /// The cascade steps.
    pub cascades: Vec<CascadeStep>,
    /// The delete itself.
    pub delete: CompiledSql,
}

/// The query that selects the primary keys of the rows a delete with
/// `filter` removes.
pub open spec fn parent_select<M: Model>(d: Dialect, filter: FilterNode) -> SelectView<M> {
    SelectView {
        dialect: d,
        filter,
        projection: seq![M::PRIMARY_KEY],
        order: Seq::empty(),
        limit: None,
        offset: None,
        distinct: false,
        ctes: Seq::empty(),
        join: None,
        with_deleted: false,
        only_deleted: false,
    }
}

/// Whether a delete may be refused before it runs: without a filter unless
/// `all_rows`, or with a `SET DEFAULT` cascade.
pub open spec fn delete_plan_error(q: DeleteView) -> Option<Seq<char>> {
    if !q.all_rows && is_trivial(q.filter) {
        Some(delete_unfiltered_text())
    } else if exists|k: int| 0 <= k < q.cascades.len() && (#[trigger] q.cascades[k]).action is SetDefault {
        Some(set_default_text())
    } else {
        None
    }
}

/// `q` has the text `sql` and binds `binds`.
pub open spec fn has_text(q: CompiledSql, sql: Seq<char>, binds: Seq<ValueView>) -> bool {
    q.sql@ == sql && views_of(q.binds@) == binds
}

/// `step` carries out `rule` for the parents that a statement with text
/// `sql` and binds `binds` selects.
pub open spec fn step_for(step: CascadeStep, rule: CascadeRule, d: Dialect, sql: Seq<char>, binds: Seq<ValueView>) -> bool {
    exists|q: CompiledSql| #[trigger] has_text(q, sql, binds) && cascade_view(step) == cascade_plan(rule, d, q)
}

/// The step of each cascade rule, in order, for the parents `parent`
/// selects; refused at the first `SET DEFAULT` rule.
fn cascade_steps<M: Model>(cascades: &Vec<CascadeRule>, dialect: Dialect, parent: &CompiledSql) -> (r: Result<Vec<CascadeStep>, Error>)
    requires
        cascade_ok(dialect, *parent),
    ensures
        (exists|k: int| 0 <= k < cascades@.len() && (#[trigger] cascades@[k]).action is SetDefault) <==> r is Err,
        r matches Err(e) ==> e@ == ErrorView::Message(set_default_text()),
        r matches Ok(v) ==> v@.len() == cascades@.len() && forall|k: int|
            0 <= k < v@.len() ==> #[trigger] step_for(v@[k], cascades@[k], dialect, parent.sql@, views_of(parent.binds@)),
{
    let mut steps: Vec<CascadeStep> = Vec::new();
    let mut i: usize = 0;
    while i < cascades.len()
        invariant
            i <= cascades@.len(),
            steps@.len() == i,
            cascade_ok(dialect, *parent),
            forall|k: int| 0 <= k < i ==> !((#[trigger] cascades@[k]).action is SetDefault),
            forall|k: int|
                0 <= k < i ==> #[trigger] step_for(steps@[k], cascades@[k], dialect, parent.sql@, views_of(parent.binds@)),
        decreases cascades@.len() - i,
    {
        let q = parent.clone();
        let ghost qv = q;
        match cascades[i].plan::<M>(dialect, q) {
            Ok(step) => {
                let ghost before = steps@;
                steps.push(step);
                proof {
                    assert(has_text(qv, parent.sql@, views_of(parent.binds@)));
                    assert(step_for(steps@[i as int], cascades@[i as int], dialect, parent.sql@, views_of(parent.binds@)));
                    assert forall|k: int| 0 <= k < i + 1 implies #[trigger] step_for(
                        steps@[k],
                        cascades@[k],
                        dialect,
                        parent.sql@,
                        views_of(parent.binds@),
                    ) by {
                        if k < i {
                            assert(steps@[k] == before[k]);
                        }
                    }
                }
            },
            Err(e) => {
                proof {
                    assert(cascades@[i as int].action is SetDefault);
                }
                return Err(e);
            },
        }
        i = i + 1;
    }
    Ok(steps)
}

impl<M: Model> DeleteQuery<M, FilteredDelete> {
    /// Cascades the delete to the children of model `C` whose
    /// `child_fk_col` points at a deleted row.
    pub fn cascade<C: Model>(self, child_fk_col: &'static str, action: DeleteAction) -> (r: Self)
        ensures
            r@ == (DeleteView {
                cascades: self@.cascades.push(
                    CascadeRule { child_table: C::TABLE, child_columns: C::COLUMNS, child_fk_col, action },
                ),
                ..self@
            }),
    {
        let mut cascades = self.cascades;
        cascades.push(DeleteCascade::<C>::new(child_fk_col, action).rule());
        DeleteQuery { cascades, ..self }
    }

    /// The statements the delete runs. With no cascade rule, the delete
    /// alone. Otherwise each rule's step for the rows that the query
    /// [`parent_select`] selects, in order, then the delete; the steps and
    /// the delete belong in one transaction.
    #[verifier::rlimit(40)]
    #[verifier::spinoff_prover]
    pub fn plan(self) -> (r: Result<DeletePlan, Error>)
        requires
            self@.all_rows || !is_trivial(self@.filter) ==> delete_text(self@.dialect, M::TABLE@, self@.filter, Seq::empty()).2
                && query_ok::<M>(parent_select::<M>(self@.dialect, self@.filter)) && forall|p: CompiledSql|
                p.sql@ == query_text::<M>(parent_select::<M>(self@.dialect, self@.filter)).0 ==> #[trigger] cascade_ok(
                self@.dialect,
                p,
            ),
        ensures
            delete_plan_error(self@) is None <==> r is Ok,
            r matches Err(e) ==> e@ == ErrorView::Message(delete_plan_error(self@)->0),
            r matches Ok(p) ==> ({
                let t = delete_text(self@.dialect, M::TABLE@, self@.filter, Seq::empty());
                let parent = query_text::<M>(parent_select::<M>(self@.dialect, self@.filter));
                &&& p.delete.sql@ == t.0
                &&& views_of(p.delete.binds@) == t.1
                &&& p.cascades@.len() == self@.cascades.len()
                &&& forall|k: int|
                    0 <= k < p.cascades@.len() ==> #[trigger] step_for(
                        p.cascades@[k],
                        self@.cascades[k],
                        self@.dialect,
                        parent.0,
                        parent.1,
                    )
            }),
    {
        let delete = match self.to_sql() {
            Ok(c) => c,
            Err(e) => return Err(e),
        };
        let mut steps: Vec<CascadeStep> = Vec::new();
        if self.cascades.len() == 0 {
            return Ok(DeletePlan { cascades: steps, delete });
        }
        let ghost view = self@;
        let dialect = self.dialect;
        let cascades = self.cascades;
        let pk: Column<M, Value> = Column::new(M::TABLE, M::PRIMARY_KEY);
        let select = SelectQuery::<M, M>::from_filter(dialect, self.filter).columns(pk);
        proof {
            assert(select@ == parent_select::<M>(dialect, view.filter));
        }
        let parent = match select.to_sql() {
            Ok(c) => c,
            Err(e) => return Err(e),
        };
        let steps = match cascade_steps::<M>(&cascades, dialect, &parent) {
            Ok(v) => v,
            Err(e) => {
                proof {
                    let k = choose|k: int| 0 <= k < cascades@.len() && (#[trigger] cascades@[k]).action is SetDefault;
                    assert(view.cascades[k].action is SetDefault);
                }
                return Err(e);
            },
        };
        Ok(DeletePlan { cascades: steps, delete })
    }

    /// Adds a further filter.
    pub fn filter(self, f: Filter<M>) -> (r: Self)
        ensures
            r@.filter matches FilterNode::And(v) && v@ == flat_children(seq![self@.filter, f.node], true),
            r@ == (DeleteView { filter: r@.filter, ..self@ }),
    {
        DeleteQuery { filter: self.filter.and(f), ..self }
    }

    /// Adds a further filter when one is given.
    pub fn filter_if(self, f: Option<Filter<M>>) -> (r: Self)
        ensures
            f is None ==> r@ == self@,
            f matches Some(g) ==> (r@.filter matches FilterNode::And(v) && v@ == flat_children(
                seq![self@.filter, g.node],
                true,
            )) && r@ == (DeleteView { filter: r@.filter, ..self@ }),
    {
        match f {
            Some(g) => self.filter(g),
            None => self,
        }
    }

    /// Compiles the delete; refused when the filter is empty and `all_rows`
    /// was not asked for.
    pub fn to_sql(&self) -> (r: Result<CompiledSql, Error>)
        requires
            self@.all_rows || !is_trivial(self@.filter) ==> delete_text(self@.dialect, M::TABLE@, self@.filter, Seq::empty()).2,
        ensures
            (self@.all_rows || !is_trivial(self@.filter)) <==> r is Ok,
            r matches Err(e) ==> e@ == ErrorView::Message(delete_unfiltered_text()),
            r matches Ok(c) ==> ({
                let t = delete_text(self@.dialect, M::TABLE@, self@.filter, Seq::empty());
                c.sql@ == t.0 && views_of(c.binds@) == t.1
            }),
    {
        let trivial = match &self.filter.node {
            FilterNode::And(v) => v.len() == 0,
            _ => false,
        };
        if !self.all_rows && trivial {
            return Err(Error::Message(string_of("delete has no filter; call .all_rows() to delete every row")));
        }
        let none: Vec<&str> = Vec::new();
        proof {
            assert(none@ =~= Seq::<&str>::empty());
        }
        Ok(delete::<M>(self.dialect, M::TABLE, &self.filter.node, none.as_slice()))
    }
}

/// The first column position below `n` at which `row` names a different
/// column than `first`.
pub open spec fn col_mismatch(first: Seq<(&'static str, Value)>, row: Seq<(&'static str, Value)>, n: nat) -> Option<nat>
    decreases n,
{
    if n == 0 {
        None
    } else {
        match col_mismatch(first, row, (n - 1) as nat) {
            Some(j) => Some(j),
            None => if first[n - 1].0@ != row[n - 1].0@ {
                Some((n - 1) as nat)
            } else {
                None
            },
        }
    }
}

/// Why row `idx` does not have the shape of `first`, if it does not: a
/// different column count, or the first position naming another column.
pub open spec fn row_error(first: Seq<(&'static str, Value)>, row: Seq<(&'static str, Value)>, idx: nat) -> Option<Seq<char>> {
    if row.len() != first.len() {
        Some(
            "insert row "@ + decimal(idx) + " has "@ + decimal(row.len()) + " columns, expected "@ + decimal(
                first.len(),
            ) + " from row 0"@,
        )
    } else {
        match col_mismatch(first, row, row.len()) {
            Some(j) => Some(
                "insert row "@ + decimal(idx) + " column "@ + decimal(j) + " differs from row 0: expected '"@
                    + first[j as int].0@ + "', found '"@ + row[j as int].0@ + "'"@,
            ),
            None => None,
        }
    }
}

/// The first shape error among rows `1..n`: each must name the columns of
/// row 0, in its order.
pub open spec fn shape_error(rows: Seq<Vec<(&'static str, Value)>>, n: nat) -> Option<Seq<char>>
    decreases n,
{
    if n <= 1 {
        None
    } else {
        match shape_error(rows, (n - 1) as nat) {
            Some(e) => Some(e),
            None => row_error(rows[0]@, rows[n - 1]@, (n - 1) as nat),
        }
    }
}

/// Checks that every row names the columns of the first row, in its order.
pub fn validate_row_shape(rows: &[Vec<(&'static str, Value)>]) -> (r: Result<(), Error>)
    ensures
        r is Ok <==> shape_error(rows@, rows@.len()) is None,
        r matches Err(e) ==> e@ == ErrorView::Message(shape_error(rows@, rows@.len())->0),
{
    if rows.len() < 2 {
        return Ok(());
    }
    let first = &rows[0];
    let mut i: usize = 1;
    while i < rows.len()
        invariant
            1 <= i <= rows@.len(),
            rows@.len() >= 2,
            *first == rows@[0],
            shape_error(rows@, i as nat) is None,
        decreases rows@.len() - i,
    {
        let row = &rows[i];
        if row.len() != first.len() {
            let mut m = string_of("insert row ");
            m.append(decimal_string(i as u64).as_str());
            m.append(" has ");
            m.append(decimal_string(row.len() as u64).as_str());
            m.append(" columns, expected ");
            m.append(decimal_string(first.len() as u64).as_str());
            m.append(" from row 0");
            proof {
                assert(shape_error(rows@, (i + 1) as nat) == row_error(rows@[0]@, rows@[i as int]@, i as nat));
                lemma_shape_error_keeps(rows@, (i + 1) as nat, rows@.len());
            }
            return Err(Error::Message(m));
        }
        let mut j: usize = 0;
        while j < row.len()
            invariant
                j <= row@.len(),
                row@.len() == first@.len(),
                1 <= i < rows@.len(),
                rows@.len() >= 2,
                *first == rows@[0],
                *row == rows@[i as int],
                shape_error(rows@, i as nat) is None,
                col_mismatch(first@, row@, j as nat) is None,
            decreases row@.len() - j,
        {
            if !same_text(first[j].0, row[j].0) {
                let mut m = string_of("insert row ");
                m.append(decimal_string(i as u64).as_str());
                m.append(" column ");
                m.append(decimal_string(j as u64).as_str());
                m.append(" differs from row 0: expected '");
                m.append(first[j].0);
                m.append("', found '");
                m.append(row[j].0);
                m.append("'");
                proof {
                    assert(col_mismatch(first@, row@, (j + 1) as nat) == Some(j as nat));
                    lemma_col_mismatch_keeps(first@, row@, (j + 1) as nat, row@.len());
                    assert(shape_error(rows@, (i + 1) as nat) == row_error(rows@[0]@, rows@[i as int]@, i as nat));
                    lemma_shape_error_keeps(rows@, (i + 1) as nat, rows@.len());
                }
                return Err(Error::Message(m));
            }
            j = j + 1;
        }
        i = i + 1;
    }
    Ok(())
}

/// Once a column mismatch is found below `n`, it stays the first one below
/// any larger bound.
proof fn lemma_col_mismatch_keeps(first: Seq<(&'static str, Value)>, row: Seq<(&'static str, Value)>, n: nat, m: nat)
    requires
        n <= m,
        col_mismatch(first, row, n) is Some,
    ensures
        col_mismatch(first, row, m) == col_mismatch(first, row, n),
    decreases m - n,
{
    if n < m {
        lemma_col_mismatch_keeps(first, row, n, (m - 1) as nat);
    }
}

/// Once a shape error is found among the first `n` rows, it stays the
/// first one among more.
proof fn lemma_shape_error_keeps(rows: Seq<Vec<(&'static str, Value)>>, n: nat, m: nat)
    requires
        n <= m,
        shape_error(rows, n) is Some,
    ensures
        shape_error(rows, m) == shape_error(rows, n),
    decreases m - n,
{
    if n < m {
        lemma_shape_error_keeps(rows, n, (m - 1) as nat);
    }
}

/// A typed multi-row `INSERT` on model `M`.
pub struct InsertManyQuery<M> {
    dialect: Dialect,
    rows: Vec<Vec<(&'static str, Value)>>,
    _marker: PhantomData<M>,
}

/// What an [`InsertManyQuery`] holds.
pub struct InsertManyView {
    /// The target dialect.
    pub dialect: Dialect,
    /// The rows, each a list of columns and values.
    pub rows: Seq<Vec<(&'static str, Value)>>,
}

impl<M> View for InsertManyQuery<M> {
    type V = InsertManyView;

    closed spec fn view(&self) -> InsertManyView {
        InsertManyView { dialect: self.dialect, rows: self.rows@ }
    }
}

/// The message of a row with no columns.
pub open spec fn empty_row_text() -> Seq<char> {
    "insert row has no columns"@
}

/// Why the rows cannot be inserted, if they cannot: a row with no
/// columns, or a row that does not have the shape of the first. No rows is
/// no error.
pub open spec fn insert_many_error(rows: Seq<Vec<(&'static str, Value)>>) -> Option<Seq<char>> {
    if rows.len() == 0 {
        None
    } else if exists|i: int| 0 <= i < rows.len() && #[trigger] rows[i]@.len() == 0 {
        Some(empty_row_text())
    } else {
        shape_error(rows, rows.len())
    }
}

/// How many rows one statement carries: as many as fit in
/// `max_query_params` binds with `cols` columns a row, and at least one.
pub open spec fn insert_chunk(max_query_params: u32, cols: nat) -> nat {
    let per = if cols > 1 {
        cols
    } else {
        1
    };
    if (max_query_params as nat) / per >= 1 {
        (max_query_params as nat) / per
    } else {
        1
    }
}

/// What the inserted rows are read back as: the model's columns, or every
/// column for a model that lists none.
pub open spec fn many_returning<M: Model>() -> Seq<&'static str> {
    if M::COLUMNS@.len() == 0 {
        seq!["*"]
    } else {
        M::COLUMNS@
    }
}

/// The end of the chunk of `size` rows that starts at `start`, among `n`.
pub open spec fn chunk_end(start: int, size: int, n: int) -> int {
    if start + size < n {
        start + size
    } else {
        n
    }
}

/// `v` inserts `rows` into `table` in chunks of [`insert_chunk`] rows, in
/// order, each reading back [`many_returning`].
pub open spec fn chunked_rows<M: Model>(
    d: Dialect,
    table: Seq<char>,
    rows: Seq<Vec<(&'static str, Value)>>,
    max_query_params: u32,
    v: Seq<CompiledSql>,
) -> bool {
    let n = rows.len() as int;
    let size = if n > 0 {
        insert_chunk(max_query_params, rows[0]@.len()) as int
    } else {
        1
    };
    &&& v.len() * size >= n
    &&& v.len() > 0 ==> (v.len() - 1) * size < n
    &&& forall|k: int|
        0 <= k < v.len() ==> {
            let part = rows.subrange(k * size, chunk_end(k * size, size, n));
            &&& #[trigger] v[k].sql@ == crate::compile::insert_many_text(d, table, part, many_returning::<M>())
            &&& views_of(v[k].binds@) == crate::compile::rows_binds(part)
        }
}

/// `v` inserts the rows of `q` into the table of `M` in chunks of
/// [`insert_chunk`] rows, in order, each reading back [`many_returning`].
pub open spec fn chunked_inserts<M: Model>(q: InsertManyView, max_query_params: u32, v: Seq<CompiledSql>) -> bool {
    chunked_rows::<M>(q.dialect, M::TABLE@, q.rows, max_query_params, v)
}

/// The statements that insert `rows` (at least one) into `table`, each
/// carrying as many rows as fit in `max_query_params` binds.
fn chunk_inserts<M: Model>(
    dialect: Dialect,
    table: &str,
    rows: &[Vec<(&'static str, Value)>],
    max_query_params: u32,
) -> (r: Vec<CompiledSql>)
    requires
        rows@.len() > 0,
        rows@[0]@.len() <= u32::MAX,
    ensures
        chunked_rows::<M>(dialect, table@, rows@, max_query_params, r@),
{
    let n = rows.len();
    let cols = rows[0].len() as u32;
    let per: u32 = if cols > 1 {
        cols
    } else {
        1
    };
    let q = max_query_params / per;
    let size: usize = if q >= 1 {
        q as usize
    } else {
        1
    };
    let star: Vec<&'static str> = vec!["*"];
    let returning: &[&'static str] = if M::COLUMNS.len() == 0 {
        star.as_slice()
    } else {
        M::COLUMNS
    };
    proof {
        assert(returning@ == many_returning::<M>());
    }
    let mut out: Vec<CompiledSql> = Vec::new();
    let mut start: usize = 0;
    while start < n
        invariant
            n == rows@.len(),
            n > 0,
            size >= 1,
            size == insert_chunk(max_query_params, rows@[0]@.len()),
            returning@ == many_returning::<M>(),
            start <= n,
            start < n ==> start == out@.len() * size,
            start == n ==> out@.len() > 0 && out@.len() * size >= n && (out@.len() - 1) * size < n,
            forall|k: int|
                0 <= k < out@.len() ==> {
                    let part = rows@.subrange(k * size, chunk_end(k * size, size as int, n as int));
                    &&& #[trigger] out@[k].sql@ == crate::compile::insert_many_text(
                        dialect,
                        table@,
                        part,
                        many_returning::<M>(),
                    )
                    &&& views_of(out@[k].binds@) == crate::compile::rows_binds(part)
                },
        decreases n - start,
    {
        let end: usize = if n - start > size {
            start + size
        } else {
            n
        };
        let (_, tail) = rows.split_at(start);
        let (part, _) = tail.split_at(end - start);
        proof {
            assert(part@ =~= rows@.subrange(start as int, end as int));
            assert((out@.len() + 1) * size == out@.len() * size + size) by (nonlinear_arith);
        }
        let c = crate::compile::insert_many::<M>(dialect, table, part, returning);
        let ghost k = out@.len() as int;
        out.push(c);
        proof {
            assert(part@.len() > 0);
            assert(chunk_end(k * size, size as int, n as int) == end);
        }
        start = end;
    }
    proof {
        let nn = rows@.len() as int;
        let sz = insert_chunk(max_query_params, rows@[0]@.len()) as int;
        assert(sz == size);
        assert(out@.len() * sz >= nn);
        assert(out@.len() > 0 ==> (out@.len() - 1) * sz < nn);
        assert forall|k: int| 0 <= k < out@.len() implies {
            let part = rows@.subrange(k * sz, chunk_end(k * sz, sz, nn));
            &&& #[trigger] out@[k].sql@ == crate::compile::insert_many_text(
                dialect,
                table@,
                part,
                many_returning::<M>(),
            )
            &&& views_of(out@[k].binds@) == crate::compile::rows_binds(part)
        } by {}
        assert(chunked_rows::<M>(dialect, table@, rows@, max_query_params, out@));
    }
    out
}

/// Checks that the rows can be inserted: none without columns, all of the
/// shape of the first.
fn check_rows(rows: &Vec<Vec<(&'static str, Value)>>) -> (r: Result<(), Error>)
    ensures
        insert_many_error(rows@) is None <==> r is Ok,
        r matches Err(e) ==> e@ == ErrorView::Message(insert_many_error(rows@)->0),
{
    let n = rows.len();
    if n == 0 {
        return Ok(());
    }
    let mut i: usize = 0;
    while i < n
        invariant
            n == rows@.len(),
            i <= n,
            forall|t: int| 0 <= t < i ==> #[trigger] rows@[t]@.len() != 0,
        decreases n - i,
    {
        if rows[i].len() == 0 {
            return Err(Error::Message(string_of("insert row has no columns")));
        }
        i = i + 1;
    }
    validate_row_shape(rows.as_slice())
}

impl<M: Model> InsertManyQuery<M> {
    /// Creates an insert with no rows, for `dialect`.
    pub fn new(dialect: Dialect) -> (r: Self)
        ensures
            r@.dialect == dialect,
            r@.rows.len() == 0,
    {
        InsertManyQuery { dialect, rows: Vec::new(), _marker: PhantomData }
    }

    /// Adds a row.
    pub fn row(self, columns: Vec<(&'static str, Value)>) -> (r: Self)
        ensures
            r@ == (InsertManyView { rows: self@.rows.push(columns), ..self@ }),
    {
        let mut rows = self.rows;
        rows.push(columns);
        InsertManyQuery { rows, ..self }
    }

    /// Adds rows, in order.
    pub fn rows(self, more: Vec<Vec<(&'static str, Value)>>) -> (r: Self)
        ensures
            r@ == (InsertManyView { rows: self@.rows + more@, ..self@ }),
    {
        let mut rows = self.rows;
        let mut more = more;
        rows.append(&mut more);
        InsertManyQuery { rows, ..self }
    }

    /// The statements that insert the rows, each carrying as many rows as
    /// fit in `max_query_params` binds and reading back
    /// [`many_returning`]; refused when a row has no columns or rows differ
    /// in shape.
    pub fn statements(&self, max_query_params: u32) -> (r: Result<Vec<CompiledSql>, Error>)
        requires
            self@.rows.len() > 0 ==> self@.rows[0]@.len() <= u32::MAX,
        ensures
            insert_many_error(self@.rows) is None <==> r is Ok,
            r matches Err(e) ==> e@ == ErrorView::Message(insert_many_error(self@.rows)->0),
            r matches Ok(v) ==> chunked_inserts::<M>(self@, max_query_params, v@),
    {
        match check_rows(&self.rows) {
            Err(e) => return Err(e),
            Ok(()) => {},
        }
        if self.rows.len() == 0 {
            let out: Vec<CompiledSql> = Vec::new();
            return Ok(out);
        }
        let out = chunk_inserts::<M>(self.dialect, M::TABLE, self.rows.as_slice(), max_query_params);
        Ok(out)
    }
}

/// The binds of rows that all have `c` columns number `c` a row.
proof fn lemma_rows_binds_len(rows: Seq<Vec<(&'static str, Value)>>, c: nat)
    requires
        forall|i: int| 0 <= i < rows.len() ==> (#[trigger] rows[i])@.len() == c,
    ensures
        crate::compile::rows_binds(rows).len() == rows.len() * c,
    decreases rows.len(),
{
    if rows.len() > 0 {
        let init = rows.drop_last();
        assert forall|i: int| 0 <= i < init.len() implies (#[trigger] init[i])@.len() == c by {
            assert(init[i] == rows[i]);
        }
        lemma_rows_binds_len(init, c);
        assert(pair_values(rows.last()@).len() == c);
        let n = rows.len() as int;
        assert((n - 1) * c + c == n * c) by (nonlinear_arith);
    }
}

/// Rows with no shape error among the first `n` all have the width of the
/// first.
proof fn lemma_shape_widths(rows: Seq<Vec<(&'static str, Value)>>, n: nat)
    requires
        1 <= n <= rows.len(),
        shape_error(rows, n) is None,
    ensures
        forall|i: int| 0 <= i < n ==> (#[trigger] rows[i])@.len() == rows[0]@.len(),
    decreases n,
{
    if n > 1 {
        lemma_shape_widths(rows, (n - 1) as nat);
        assert(row_error(rows[0]@, rows[n - 1]@, (n - 1) as nat) is None);
    }
}

/// Each statement of a multi-row insert carries at most `max_query_params`
/// binds, whenever one row alone fits in that many.
pub proof fn law_insert_chunks_within_limit<M: Model>(
    q: InsertManyView,
    max_query_params: u32,
    v: Seq<CompiledSql>,
    k: int,
)
    requires
        insert_many_error(q.rows) is None,
        chunked_inserts::<M>(q, max_query_params, v),
        q.rows.len() > 0,
        q.rows[0]@.len() <= max_query_params,
        0 <= k < v.len(),
    ensures
        views_of(v[k].binds@).len() <= max_query_params,
{
    let n = q.rows.len() as int;
    let c = q.rows[0]@.len();
    let size = insert_chunk(max_query_params, c) as int;
    let m = max_query_params as int;
    assert(c != 0) by {
        if c == 0 {
            assert(q.rows[0]@.len() == 0);
        }
    }
    assert(size * c <= m) by {
        if c > 1 {
            assert((m / (c as int)) * (c as int) <= m) by (nonlinear_arith)
                requires
                    c > 1,
                    m >= 0,
            ;
            assert(m / (c as int) >= 1) by (nonlinear_arith)
                requires
                    c > 1,
                    c <= m,
            ;
        }
    }
    assert(size >= 1);
    assert(k * size <= (v.len() - 1) * size) by (nonlinear_arith)
        requires
            0 <= k <= v.len() - 1,
            size >= 1,
    ;
    let end = chunk_end(k * size, size, n);
    let part = q.rows.subrange(k * size, end);
    assert(v[k].sql@ == crate::compile::insert_many_text(q.dialect, M::TABLE@, part, many_returning::<M>()));
    assert(views_of(v[k].binds@) == crate::compile::rows_binds(part));
    lemma_shape_widths(q.rows, q.rows.len());
    assert forall|i: int| 0 <= i < part.len() implies (#[trigger] part[i])@.len() == c by {
        assert(part[i] == q.rows[k * size + i]);
    }
    lemma_rows_binds_len(part, c);
    assert(part.len() <= size);
    assert(part.len() * c <= size * c) by (nonlinear_arith)
        requires
            part.len() <= size,
            c >= 0,
    ;
}

/// `ext` is `rows` with the parent key `parent` appended to each row under
/// `fk_col`.
pub open spec fn rows_with_parent(
    rows: Seq<Vec<(&'static str, Value)>>,
    ext: Seq<Vec<(&'static str, Value)>>,
    fk_col: &'static str,
    parent: ValueView,
) -> bool {
    &&& ext.len() == rows.len()
    &&& forall|i: int|
        0 <= i < rows.len() ==> {
            &&& (#[trigger] ext[i])@.len() == rows[i]@.len() + 1
            &&& ext[i]@.drop_last() == rows[i]@
            &&& ext[i]@.last().0 == fk_col
            &&& ext[i]@.last().1@ == parent
        }
}

/// `v` inserts the child rows `rows`, each with the parent key `parent`
/// appended under `fk_col`, into `table` in chunks: none for no rows.
pub open spec fn child_inserts<M: Model>(
    d: Dialect,
    table: Seq<char>,
    fk_col: &'static str,
    rows: Seq<Vec<(&'static str, Value)>>,
    parent: ValueView,
    max_query_params: u32,
    v: Seq<CompiledSql>,
) -> bool {
    if rows.len() == 0 {
        v.len() == 0
    } else {
        exists|ext: Seq<Vec<(&'static str, Value)>>|
            rows_with_parent(rows, ext, fk_col, parent) && #[trigger] chunked_rows::<M>(
                d,
                table,
                ext,
                max_query_params,
                v,
            )
    }
}

/// The statements that insert the children of a freshly inserted parent
/// whose key is `parent`: each child row gets the key under `child_fk_col`,
/// and the rows go into `child_table` in chunks that fit in
/// `max_query_params` binds, reading back [`many_returning`] of `M`.
/// Refused when a row has no columns or rows differ in shape; no rows give
/// no statement.
pub fn nested_child_statements<M: Model>(
    dialect: Dialect,
    child_table: &'static str,
    child_fk_col: &'static str,
    rows: Vec<Vec<(&'static str, Value)>>,
    parent: &Value,
    max_query_params: u32,
) -> (r: Result<Vec<CompiledSql>, Error>)
    requires
        rows@.len() > 0 ==> rows@[0]@.len() < u32::MAX,
    ensures
        insert_many_error(rows@) is None <==> r is Ok,
        r matches Err(e) ==> e@ == ErrorView::Message(insert_many_error(rows@)->0),
        r matches Ok(v) ==> child_inserts::<M>(dialect, child_table@, child_fk_col, rows@, parent@, max_query_params, v@),
{
    match check_rows(&rows) {
        Err(e) => return Err(e),
        Ok(()) => {},
    }
    if rows.len() == 0 {
        let out: Vec<CompiledSql> = Vec::new();
        return Ok(out);
    }
    let ghost all = rows@;
    let mut rest = rows;
    let mut rev: Vec<Vec<(&'static str, Value)>> = Vec::new();
    while rest.len() > 0
        invariant
            rev@ + rest@.reverse() =~= all.reverse(),
        decreases rest@.len(),
    {
        let ghost before = rest@;
        let r = rest.pop().unwrap();
        rev.push(r);
        proof {
            assert(before =~= rest@.push(r));
            assert(before.reverse() =~= seq![r] + rest@.reverse());
        }
    }
    let mut ext: Vec<Vec<(&'static str, Value)>> = Vec::new();
    while rev.len() > 0
        invariant
            rev@.len() <= all.len(),
            rev@ =~= all.subrange(all.len() - rev@.len(), all.len() as int).reverse(),
            ext@.len() == all.len() - rev@.len(),
            forall|i: int|
                0 <= i < ext@.len() ==> {
                    &&& (#[trigger] ext@[i])@.len() == all[i]@.len() + 1
                    &&& ext@[i]@.drop_last() == all[i]@
                    &&& ext@[i]@.last().0 == child_fk_col
                    &&& ext@[i]@.last().1@ == parent@
                },
        decreases rev@.len(),
    {
        let ghost k = ext@.len() as int;
        let ghost before = rev@;
        let mut row = rev.pop().unwrap();
        proof {
            assert(before =~= rev@.push(row));
            assert(row == all[k]);
            assert(rev@ =~= all.subrange(all.len() - rev@.len(), all.len() as int).reverse());
        }
        let ghost orig = row@;
        row.push((child_fk_col, copy_value(parent)));
        proof {
            assert(row@.drop_last() =~= orig);
        }
        ext.push(row);
    }
    proof {
        assert(rows_with_parent(all, ext@, child_fk_col, parent@));
        assert(ext@[0]@.len() == all[0]@.len() + 1);
    }
    let out = chunk_inserts::<M>(dialect, child_table, ext.as_slice(), max_query_params);
    proof {
        assert(chunked_rows::<M>(dialect, child_table@, ext@, max_query_params, out@));
        assert(rows_with_parent(all, ext@, child_fk_col, parent@) && chunked_rows::<M>(
            dialect,
            child_table@,
            ext@,
            max_query_params,
            out@,
        ));
        assert(child_inserts::<M>(dialect, child_table@, child_fk_col, all, parent@, max_query_params, out@));
    }
    Ok(out)
}

/// The query that reads back the children of the parent whose key is bound
/// first, on a dialect that cannot return inserted rows.
pub fn children_reload_sql(dialect: Dialect, child_table: &str, child_fk_col: &str) -> (r: String)
    ensures
        r@ == "SELECT * FROM "@ + quoted(dialect, child_table@) + " WHERE "@ + quoted(dialect, child_fk_col@) + " = "@
            + placeholder_text(dialect, 0),
{
    let mut s = string_of("SELECT * FROM ");
    s.append(dialect.quote_ident(child_table).as_str());
    s.append(" WHERE ");
    s.append(dialect.quote_ident(child_fk_col).as_str());
    s.append(" = ");
    s.append(dialect.placeholder(0).as_str());
    s
}

} // verus!
