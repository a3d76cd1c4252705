//! Query builders: a typed `SELECT` and the combination of two by a set
//! operation, compiled for a dialect.
use std::marker::PhantomData;

use vstd::prelude::*;

use crate::aggregate::AggregateEntry;
use crate::col::{Column, Projection};
use crate::compile::{
    aggregate_select, aggregate_text,
    copy_children, copy_node, cond_clause, filter_sql, lemma_list_sql_alike, list_sql,
    count, count_text, exists_select, exists_text, join_select_with_columns, join_text, opt_view,
    renumber_ok, renumbered_text, select, select_text, set_op, set_op_body, with_cte_prefix,
    with_cte_text, CompiledSql,
};
use crate::dialect::{dialect_name, full_join_ok, right_join_ok, set_difference_ok, Dialect};
use crate::error::{string_of, Error, ErrorView};
use crate::filter::{flat_children, flat_part, is_trivial, Cte, CteQuery, ExistsSubquery, Filter, FilterNode};
use crate::join::{Join2, JoinKind, JoinOn, LeftJoin2, Maybe};
use crate::model::Model;
use crate::order::OrderBy;
use crate::value::{lemma_views_of_add, views_of, Value, ValueView};

verus! {

/// A set operation combining two `SELECT`s.
#[derive(Debug, Clone, Copy, PartialEq, Eq)]
pub enum SetOp {
    /// `UNION` (deduplicating).
    Union,
    /// `UNION ALL` (preserves duplicates).
    UnionAll,
    /// `INTERSECT`.
    Intersect,
    /// `EXCEPT`.
    Except,
}

/// The SQL keyword of a set operation.
pub open spec fn set_op_text(op: SetOp) -> Seq<char> {
    match op {
        SetOp::Union => "UNION"@,
        SetOp::UnionAll => "UNION ALL"@,
        SetOp::Intersect => "INTERSECT"@,
        SetOp::Except => "EXCEPT"@,
    }
}

impl SetOp {
    /// Returns the SQL keyword for this operation.
    pub fn sql(self) -> (r: &'static str)
        ensures
            r@ == set_op_text(self),
    {
        match self {
            SetOp::Union => "UNION",
            SetOp::UnionAll => "UNION ALL",
            SetOp::Intersect => "INTERSECT",
            SetOp::Except => "EXCEPT",
        }
    }
}

/// The join of a query to a second model.
#[derive(Debug)]
pub struct JoinSpec {
    /// The kind of join.
    pub kind: JoinKind,
    /// The table of the right-hand model.
    pub right_table: &'static str,
    /// The columns of the right-hand model.
    pub right_columns: &'static [&'static str],
    /// The alias of the right-hand table, if any.
    pub right_alias: Option<&'static str>,
    /// The join condition.
    pub on: FilterNode,
}

/// What a [`SelectQuery`] holds.
pub struct SelectView<M> {
    /// The target dialect.
    pub dialect: Dialect,
    /// The filter.
    pub filter: FilterNode,
    /// The selected columns; none selects the model's columns.
    pub projection: Seq<&'static str>,
    /// The ordering.
    pub order: Seq<OrderBy<M>>,
    /// The limit.
    pub limit: Option<u64>,
    /// The offset.
    pub offset: Option<u64>,
    /// Whether the query is `SELECT DISTINCT`.
    pub distinct: bool,
    /// The common table expressions.
    pub ctes: Seq<Cte>,
    /// The join, if any.
    pub join: Option<JoinSpec>,
    /// Whether soft-deleted rows are returned along with the others.
    pub with_deleted: bool,
    /// Whether only soft-deleted rows are returned.
    pub only_deleted: bool,
}

/// A typed `SELECT` on model `M` whose rows decode into `Out`.
pub struct SelectQuery<M, Out> {
    dialect: Dialect,
    filter: Filter<M>,
    projection: Vec<&'static str>,
    order: Vec<OrderBy<M>>,
    limit: Option<u64>,
    offset: Option<u64>,
    distinct: bool,
    ctes: Vec<Cte>,
    join: Option<JoinSpec>,
    with_deleted: bool,
    only_deleted: bool,
    _out: PhantomData<Out>,
}

impl<M, Out> View for SelectQuery<M, Out> {
    type V = SelectView<M>;

    closed spec fn view(&self) -> SelectView<M> {
        SelectView {
            dialect: self.dialect,
            filter: self.filter.node,
            projection: self.projection@,
            order: self.order@,
            limit: self.limit,
            offset: self.offset,
            distinct: self.distinct,
            ctes: self.ctes@,
            join: self.join,
            with_deleted: self.with_deleted,
            only_deleted: self.only_deleted,
        }
    }
}

/// Whether the dialect can run the query's join.
pub open spec fn join_supported(d: Dialect, join: Option<JoinSpec>) -> bool {
    match join {
        Some(j) => !(j.kind is Right && !right_join_ok(d)) && !(j.kind is Full && !full_join_ok(d)),
        None => true,
    }
}

/// The message of the error for a join the dialect cannot run.
pub open spec fn join_error_text(d: Dialect, kind: JoinKind) -> Seq<char> {
    if kind is Right {
        "RIGHT JOIN is not supported by "@ + dialect_name(d)
    } else {
        "FULL OUTER JOIN is not supported by "@ + dialect_name(d)
    }
}

/// The soft-delete condition a query on `M` adds to its filter, if any:
/// the deleted-at column is null, or with `only_deleted` not null.
pub open spec fn soft_delete_cond<M: Model>(with_deleted: bool, only_deleted: bool) -> Option<FilterNode> {
    if with_deleted {
        None
    } else {
        match M::DELETED_AT_COLUMN {
            Some(col) => Some(FilterNode::Null { table: M::TABLE, column: col, negated: only_deleted }),
            None => None,
        }
    }
}

/// `f` compiles as `g` does.
pub open spec fn alike(f: FilterNode, g: FilterNode) -> bool {
    is_trivial(f) == is_trivial(g) && forall|d: Dialect, k: nat| #[trigger] filter_sql(d, f, k) == filter_sql(d, g, k)
}

/// `f` compiles as `filter` with `cond`, if there is one, added by `AND`:
/// a conjunction whose children compile, one for one, as the flattened
/// children of `filter` followed by `cond`.
pub open spec fn adds_cond(filter: FilterNode, cond: Option<FilterNode>, f: FilterNode) -> bool {
    match cond {
        Some(c) => {
            let s = flat_children(seq![filter, c], true);
            &&& f matches FilterNode::And(v)
            &&& f->And_0@.len() == s.len()
            &&& forall|j: int, d: Dialect, k: nat|
                0 <= j < s.len() ==> #[trigger] filter_sql(d, f->And_0@[j], k) == filter_sql(d, s[j], k)
        },
        None => alike(f, filter),
    }
}

/// The filter the query runs with: its own, with the soft-delete condition
/// of the model added.
pub open spec fn effective_node<M: Model>(q: SelectView<M>) -> FilterNode {
    choose|f: FilterNode| adds_cond(q.filter, soft_delete_cond::<M>(q.with_deleted, q.only_deleted), f)
}

/// Two filters that add the same condition to the same filter compile
/// alike.
pub proof fn lemma_adds_cond_unique(filter: FilterNode, cond: Option<FilterNode>, f1: FilterNode, f2: FilterNode)
    requires
        adds_cond(filter, cond, f1),
        adds_cond(filter, cond, f2),
    ensures
        forall|d: Dialect, kw: Seq<char>, k: nat| #[trigger] cond_clause(d, kw, f1, k) == cond_clause(d, kw, f2, k),
{
    match cond {
        Some(c) => {
            let s = flat_children(seq![filter, c], true);
            let v1 = f1->And_0@;
            let v2 = f2->And_0@;
            assert(s == flat_children(seq![filter], true) + flat_part(c, true)) by {
                assert(seq![filter, c].drop_last() =~= seq![filter]);
            }
            assert forall|j: int, d: Dialect, k: nat| 0 <= j < v1.len() implies #[trigger] filter_sql(d, v1[j], k)
                == filter_sql(d, v2[j], k) by {
                assert(filter_sql(d, v1[j], k) == filter_sql(d, s[j], k));
                assert(filter_sql(d, v2[j], k) == filter_sql(d, s[j], k));
            }
            lemma_list_sql_alike(v1, v2);
            assert forall|d: Dialect, kw: Seq<char>, k: nat| #[trigger] cond_clause(d, kw, f1, k) == cond_clause(
                d,
                kw,
                f2,
                k,
            ) by {
                if v1.len() == 1 {
                    assert(filter_sql(d, v1[0], k) == filter_sql(d, v2[0], k));
                } else {
                    assert(list_sql(d, v1, " AND "@, k) == list_sql(d, v2, " AND "@, k));
                }
            }
        },
        None => {
            assert forall|d: Dialect, kw: Seq<char>, k: nat| #[trigger] cond_clause(d, kw, f1, k) == cond_clause(
                d,
                kw,
                f2,
                k,
            ) by {
                assert(filter_sql(d, f1, k) == filter_sql(d, filter, k));
                assert(filter_sql(d, f2, k) == filter_sql(d, filter, k));
            }
        },
    }
}

/// `filter` with `c` added by `AND`, children of a conjunction spliced in.
fn with_cond(filter: &FilterNode, c: FilterNode) -> (r: FilterNode)
    requires
        c is Null,
    ensures
        adds_cond(*filter, Some(c), r),
{
    let ghost s = flat_children(seq![*filter, c], true);
    proof {
        assert(seq![*filter, c].drop_last() =~= seq![*filter]);
        assert(seq![*filter].drop_last() =~= Seq::<FilterNode>::empty());
        assert(flat_children(Seq::<FilterNode>::empty(), true) == Seq::<FilterNode>::empty());
        assert(flat_children(seq![*filter], true) =~= flat_part(*filter, true));
        assert(s == flat_children(seq![*filter], true) + flat_part(c, true));
        assert(s =~= flat_part(*filter, true) + seq![c]);
    }
    let mut v: Vec<FilterNode> = match filter {
        FilterNode::And(w) => copy_children(w, Ghost(*filter)),
        _ => {
            let mut v: Vec<FilterNode> = Vec::new();
            v.push(copy_node(filter));
            v
        },
    };
    let ghost head = v@;
    v.push(c);
    proof {
        assert forall|j: int, d: Dialect, k: nat| 0 <= j < s.len() implies #[trigger] filter_sql(d, v@[j], k)
            == filter_sql(d, s[j], k) by {
            if j < head.len() {
                assert(v@[j] == head[j]);
            }
        }
    }
    FilterNode::And(v)
}

/// The statement of the query without its CTEs, run with `filter`: text,
/// binds, and whether every subquery in it can be spliced in.
pub open spec fn main_text_for<M: Model>(q: SelectView<M>, filter: FilterNode) -> (Seq<char>, Seq<ValueView>, bool) {
    match q.join {
        Some(j) => join_text(
            q.dialect,
            M::TABLE@,
            M::COLUMNS@,
            j.right_table@,
            j.right_columns@,
            opt_view(j.right_alias),
            j.kind,
            j.on,
            filter,
            q.order,
            q.limit,
            q.offset,
            q.distinct,
        ),
        None => select_text::<M>(
            q.dialect,
            M::TABLE@,
            q.projection,
            filter,
            q.order,
            q.limit,
            q.offset,
            q.distinct,
        ),
    }
}

/// The statement of the query without its CTEs.
pub open spec fn main_text<M: Model>(q: SelectView<M>) -> (Seq<char>, Seq<ValueView>, bool) {
    main_text_for::<M>(q, effective_node::<M>(q))
}

/// The whole statement of the query, CTEs first.
pub open spec fn query_text<M: Model>(q: SelectView<M>) -> (Seq<char>, Seq<ValueView>, bool) {
    let m = main_text::<M>(q);
    let w = with_cte_text(q.dialect, q.ctes, m.0, m.1);
    (w.0, w.1, m.2 && w.2)
}

/// The query compiles: its join is supported and every subquery in it can
/// be spliced in.
pub open spec fn query_ok<M: Model>(q: SelectView<M>) -> bool {
    join_supported(q.dialect, q.join) && query_text::<M>(q).2
}

impl<M: Model> SelectQuery<M, M> {
    /// Creates a query on every row of `M`, for `dialect`.
    pub fn new(dialect: Dialect) -> (r: Self)
        ensures
            r@.dialect == dialect,
            is_trivial(r@.filter),
            r@.projection.len() == 0,
            r@.order.len() == 0,
            r@.limit is None,
            r@.offset is None,
            !r@.distinct,
            r@.ctes.len() == 0,
            r@.join is None,
            !r@.with_deleted,
            !r@.only_deleted,
    {
        SelectQuery {
            dialect,
            filter: Filter::new(FilterNode::And(Vec::new())),
            projection: Vec::new(),
            order: Vec::new(),
            limit: None,
            offset: None,
            distinct: false,
            ctes: Vec::new(),
            join: None,
            with_deleted: false,
            only_deleted: false,
            _out: PhantomData,
        }
    }
}

impl<M: Model> SelectQuery<M, M> {
    /// Creates a query on the rows of `M` that `filter` keeps, for
    /// `dialect`.
    pub fn from_filter(dialect: Dialect, filter: Filter<M>) -> (r: Self)
        ensures
            r@ == (SelectView::<M> {
                dialect,
                filter: filter.node,
                projection: Seq::empty(),
                order: Seq::empty(),
                limit: None,
                offset: None,
                distinct: false,
                ctes: Seq::empty(),
                join: None,
                with_deleted: false,
                only_deleted: false,
            }),
    {
        let r = SelectQuery {
            dialect,
            filter,
            projection: Vec::new(),
            order: Vec::new(),
            limit: None,
            offset: None,
            distinct: false,
            ctes: Vec::new(),
            join: None,
            with_deleted: false,
            only_deleted: false,
            _out: PhantomData,
        };
        proof {
            assert(r@.projection =~= Seq::<&'static str>::empty());
            assert(r@.order =~= Seq::<OrderBy<M>>::empty());
            assert(r@.ctes =~= Seq::<Cte>::empty());
        }
        r
    }
}

impl<M: Model, Out> SelectQuery<M, Out> {
    /// Adds a filter with `AND`.
    pub fn filter(self, f: Filter<M>) -> (r: Self)
        ensures
            r@.filter matches FilterNode::And(v) && v@ == flat_children(seq![self@.filter, f.node], true),
            r@ == (SelectView { filter: r@.filter, ..self@ }),
    {
        SelectQuery { filter: self.filter.and(f), ..self }
    }

    /// Adds a filter with `OR`.
    pub fn or_filter(self, f: Filter<M>) -> (r: Self)
        ensures
            r@.filter matches FilterNode::Or(v) && v@ == flat_children(seq![self@.filter, f.node], false),
            r@ == (SelectView { filter: r@.filter, ..self@ }),
    {
        SelectQuery { filter: self.filter.or(f), ..self }
    }

    /// Adds a filter with `AND` when one is given.
    pub fn filter_if(self, f: Option<Filter<M>>) -> (r: Self)
        ensures
            f is None ==> r@ == self@,
            f matches Some(g) ==> (r@.filter matches FilterNode::And(v) && v@ == flat_children(
                seq![self@.filter, g.node],
                true,
            )) && r@ == (SelectView { filter: r@.filter, ..self@ }),
    {
        match f {
            Some(g) => self.filter(g),
            None => self,
        }
    }

    /// Adds a filter with `OR` when one is given.
    pub fn or_filter_if(self, f: Option<Filter<M>>) -> (r: Self)
        ensures
            f is None ==> r@ == self@,
            f matches Some(g) ==> (r@.filter matches FilterNode::Or(v) && v@ == flat_children(
                seq![self@.filter, g.node],
                false,
            )) && r@ == (SelectView { filter: r@.filter, ..self@ }),
    {
        match f {
            Some(g) => self.or_filter(g),
            None => self,
        }
    }

    /// Adds an ordering.
    pub fn order_by(self, o: OrderBy<M>) -> (r: Self)
        ensures
            r@ == (SelectView { order: self@.order.push(o), ..self@ }),
    {
        let mut order = self.order;
        order.push(o);
        SelectQuery { order, ..self }
    }

    /// Adds an ordering when one is given.
    pub fn order_by_if(self, o: Option<OrderBy<M>>) -> (r: Self)
        ensures
            o is None ==> r@ == self@,
            o matches Some(x) ==> r@ == (SelectView { order: self@.order.push(x), ..self@ }),
    {
        match o {
            Some(x) => self.order_by(x),
            None => self,
        }
    }

    /// Sets the limit.
    pub fn limit(self, n: u64) -> (r: Self)
        ensures
            r@ == (SelectView { limit: Some(n), ..self@ }),
    {
        SelectQuery { limit: Some(n), ..self }
    }

    /// Sets the limit when one is given.
    pub fn limit_if(self, n: Option<u64>) -> (r: Self)
        ensures
            n is None ==> r@ == self@,
            n is Some ==> r@ == (SelectView { limit: n, ..self@ }),
    {
        match n {
            Some(k) => self.limit(k),
            None => self,
        }
    }

    /// Sets the offset.
    pub fn offset(self, n: u64) -> (r: Self)
        ensures
            r@ == (SelectView { offset: Some(n), ..self@ }),
    {
        SelectQuery { offset: Some(n), ..self }
    }

    /// Sets the offset when one is given.
    pub fn offset_if(self, n: Option<u64>) -> (r: Self)
        ensures
            n is None ==> r@ == self@,
            n is Some ==> r@ == (SelectView { offset: n, ..self@ }),
    {
        match n {
            Some(k) => self.offset(k),
            None => self,
        }
    }

    /// The query that fetches a page of `size` rows: ordered by the primary
    /// key after any other ordering, and limited to one row more than
    /// `size` so that [`Page::from_overfetch`](crate::page::Page::from_overfetch)
    /// can tell whether another page exists.
    pub fn page_query(self, size: u64) -> (r: Self)
        ensures
            r@ == (SelectView { order: r@.order, limit: Some(r@.limit->0), ..self@ }),
            r@.limit->0 == if size < u64::MAX {
                (size + 1) as u64
            } else {
                u64::MAX
            },
            r@.order.drop_last() == self@.order,
            r@.order.len() == self@.order.len() + 1,
            r@.order.last().table == M::TABLE,
            r@.order.last().column == M::PRIMARY_KEY,
            !r@.order.last().desc,
            r@.order.last().json_path is None,
            !r@.order.last().text,
    {
        let q = self.order_by(OrderBy::new(M::TABLE, M::PRIMARY_KEY, false));
        proof {
            assert(q@.order.drop_last() =~= self@.order);
        }
        q.limit(size.saturating_add(1))
    }

    /// Makes the query `SELECT DISTINCT`.
    pub fn distinct(self) -> (r: Self)
        ensures
            r@ == (SelectView { distinct: true, ..self@ }),
    {
        SelectQuery { distinct: true, ..self }
    }

    /// Adds a non-recursive common table expression.
    pub fn with(self, name: &'static str, query: CteQuery) -> (r: Self)
        ensures
            r@ == (SelectView {
                ctes: self@.ctes.push(Cte { name, compiled: query.spec_compiled(), recursive: false }),
                ..self@
            }),
    {
        let mut ctes = self.ctes;
        ctes.push(Cte::new(name, query.into_compiled()));
        SelectQuery { ctes, ..self }
    }

    /// Adds a recursive common table expression whose body is
    /// `(anchor) UNION ALL (recursive)`, the placeholders of `recursive`
    /// numbered after those of `anchor`.
    pub fn with_recursive(self, name: &'static str, anchor: CteQuery, recursive: CteQuery) -> (r: Self)
        requires
            renumber_ok(recursive.spec_compiled(), anchor.spec_compiled().binds@.len()),
        ensures
            r@ == (SelectView { ctes: r@.ctes, ..self@ }),
            r@.ctes.len() == self@.ctes.len() + 1,
            r@.ctes.drop_last() == self@.ctes,
            r@.ctes.last().name == name,
            r@.ctes.last().recursive,
            r@.ctes.last().compiled.sql@ == "("@ + anchor.spec_compiled().sql@ + ") UNION ALL ("@
                + renumbered_text(recursive.spec_compiled(), anchor.spec_compiled().binds@.len()) + ")"@,
            views_of(r@.ctes.last().compiled.binds@) == views_of(anchor.spec_compiled().binds@) + views_of(
                recursive.spec_compiled().binds@,
            ),
    {
        let a = anchor.into_compiled();
        let rc = recursive.into_compiled();
        let rn = rc.renumbered(a.binds.len());
        let mut sql = string_of("(");
        sql.append(a.sql.as_str());
        sql.append(") UNION ALL (");
        sql.append(rn.sql.as_str());
        sql.append(")");
        let mut binds = a.binds;
        let mut rest = rn.binds;
        let ghost b0 = binds@;
        let ghost r0 = rest@;
        binds.append(&mut rest);
        proof {
            lemma_views_of_add(b0, r0);
        }
        let mut ctes = self.ctes;
        let ghost before = ctes@;
        ctes.push(Cte { name, compiled: CompiledSql { sql, binds }, recursive: true });
        proof {
            assert(ctes@.drop_last() =~= before);
        }
        SelectQuery { ctes, ..self }
    }

    /// Restricts the selected columns and changes the output type; drops any
    /// join.
    pub fn columns<P: Projection<M>>(self, p: P) -> (r: SelectQuery<M, P::Output>)
        ensures
            r@ == (SelectView { projection: p.spec_projection(), join: None, ..self@ }),
    {
        SelectQuery {
            dialect: self.dialect,
            filter: self.filter,
            projection: p.projection(),
            order: self.order,
            limit: self.limit,
            offset: self.offset,
            distinct: self.distinct,
            ctes: self.ctes,
            join: None,
            with_deleted: self.with_deleted,
            only_deleted: self.only_deleted,
            _out: PhantomData,
        }
    }

    /// Adds an inner join to model `J`.
    pub fn inner_join<J: Model>(self, on: JoinOn) -> (r: SelectQuery<M, Join2<M, J>>)
        ensures
            r@ == (SelectView {
                projection: Seq::empty(),
                join: Some(JoinSpec {
                    kind: JoinKind::Inner,
                    right_table: J::TABLE,
                    right_columns: J::COLUMNS,
                    right_alias: None,
                    on: on.spec_node(),
                }),
                ..self@
            }),
    {
        self.join_with::<J, Join2<M, J>>(JoinKind::Inner, None, on)
    }

    /// Adds an inner join to model `J` under the alias `alias`, as a self-join needs.
    pub fn inner_join_aliased<J: Model>(self, alias: &'static str, on: JoinOn) -> (r: SelectQuery<M, Join2<M, J>>)
        ensures
            r@ == (SelectView {
                projection: Seq::empty(),
                join: Some(JoinSpec {
                    kind: JoinKind::Inner,
                    right_table: J::TABLE,
                    right_columns: J::COLUMNS,
                    right_alias: Some(alias),
                    on: on.spec_node(),
                }),
                ..self@
            }),
    {
        self.join_with::<J, Join2<M, J>>(JoinKind::Inner, Some(alias), on)
    }

    /// Adds a left join to model `J`.
    pub fn left_join<J: Model>(self, on: JoinOn) -> (r: SelectQuery<M, LeftJoin2<M, J>>)
        ensures
            r@ == (SelectView {
                projection: Seq::empty(),
                join: Some(JoinSpec {
                    kind: JoinKind::Left,
                    right_table: J::TABLE,
                    right_columns: J::COLUMNS,
                    right_alias: None,
                    on: on.spec_node(),
                }),
                ..self@
            }),
    {
        self.join_with::<J, LeftJoin2<M, J>>(JoinKind::Left, None, on)
    }

    /// Adds a left join to model `J` under the alias `alias`, as a self-join needs.
    pub fn left_join_aliased<J: Model>(self, alias: &'static str, on: JoinOn) -> (r: SelectQuery<M, LeftJoin2<M, J>>)
        ensures
            r@ == (SelectView {
                projection: Seq::empty(),
                join: Some(JoinSpec {
                    kind: JoinKind::Left,
                    right_table: J::TABLE,
                    right_columns: J::COLUMNS,
                    right_alias: Some(alias),
                    on: on.spec_node(),
                }),
                ..self@
            }),
    {
        self.join_with::<J, LeftJoin2<M, J>>(JoinKind::Left, Some(alias), on)
    }

    /// Adds a right join to model `J`.
    pub fn right_join<J: Model>(self, on: JoinOn) -> (r: SelectQuery<M, Join2<Maybe<M>, J>>)
        ensures
            r@ == (SelectView {
                projection: Seq::empty(),
                join: Some(JoinSpec {
                    kind: JoinKind::Right,
                    right_table: J::TABLE,
                    right_columns: J::COLUMNS,
                    right_alias: None,
                    on: on.spec_node(),
                }),
                ..self@
            }),
    {
        self.join_with::<J, Join2<Maybe<M>, J>>(JoinKind::Right, None, on)
    }

    /// Adds a right join to model `J` under the alias `alias`, as a self-join needs.
    pub fn right_join_aliased<J: Model>(self, alias: &'static str, on: JoinOn) -> (r: SelectQuery<M, Join2<Maybe<M>, J>>)
        ensures
            r@ == (SelectView {
                projection: Seq::empty(),
                join: Some(JoinSpec {
                    kind: JoinKind::Right,
                    right_table: J::TABLE,
                    right_columns: J::COLUMNS,
                    right_alias: Some(alias),
                    on: on.spec_node(),
                }),
                ..self@
            }),
    {
        self.join_with::<J, Join2<Maybe<M>, J>>(JoinKind::Right, Some(alias), on)
    }

    /// Adds a full outer join to model `J`.
    pub fn full_join<J: Model>(self, on: JoinOn) -> (r: SelectQuery<M, Join2<Maybe<M>, Maybe<J>>>)
        ensures
            r@ == (SelectView {
                projection: Seq::empty(),
                join: Some(JoinSpec {
                    kind: JoinKind::Full,
                    right_table: J::TABLE,
                    right_columns: J::COLUMNS,
                    right_alias: None,
                    on: on.spec_node(),
                }),
                ..self@
            }),
    {
        self.join_with::<J, Join2<Maybe<M>, Maybe<J>>>(JoinKind::Full, None, on)
    }

    /// Adds a full outer join to model `J` under the alias `alias`, as a self-join needs.
    pub fn full_join_aliased<J: Model>(self, alias: &'static str, on: JoinOn) -> (r: SelectQuery<M, Join2<Maybe<M>, Maybe<J>>>)
        ensures
            r@ == (SelectView {
                projection: Seq::empty(),
                join: Some(JoinSpec {
                    kind: JoinKind::Full,
                    right_table: J::TABLE,
                    right_columns: J::COLUMNS,
                    right_alias: Some(alias),
                    on: on.spec_node(),
                }),
                ..self@
            }),
    {
        self.join_with::<J, Join2<Maybe<M>, Maybe<J>>>(JoinKind::Full, Some(alias), on)
    }

    /// Joins a second model `J`.
    pub fn join_with<J: Model, O>(self, kind: JoinKind, right_alias: Option<&'static str>, on: JoinOn) -> (r: SelectQuery<M, O>)
        ensures
            r@ == (SelectView {
                projection: Seq::empty(),
                join: Some(JoinSpec {
                    kind,
                    right_table: J::TABLE,
                    right_columns: J::COLUMNS,
                    right_alias,
                    on: on.spec_node(),
                }),
                ..self@
            }),
    {
        let r = SelectQuery {
            dialect: self.dialect,
            filter: self.filter,
            projection: Vec::new(),
            order: self.order,
            limit: self.limit,
            offset: self.offset,
            distinct: self.distinct,
            ctes: self.ctes,
            join: Some(JoinSpec {
                kind,
                right_table: J::TABLE,
                right_columns: J::COLUMNS,
                right_alias,
                on: on.into_node(),
            }),
            with_deleted: self.with_deleted,
            only_deleted: self.only_deleted,
            _out: PhantomData,
        };
        proof {
            assert(r@.projection =~= Seq::<&'static str>::empty());
        }
        r
    }

    /// Returns soft-deleted rows along with the others.
    pub fn with_deleted(self) -> (r: Self)
        ensures
            r@ == (SelectView { with_deleted: true, only_deleted: false, ..self@ }),
    {
        SelectQuery { with_deleted: true, only_deleted: false, ..self }
    }

    /// Returns soft-deleted rows only.
    pub fn only_deleted(self) -> (r: Self)
        ensures
            r@ == (SelectView { with_deleted: false, only_deleted: true, ..self@ }),
    {
        SelectQuery { with_deleted: false, only_deleted: true, ..self }
    }

    /// The filter the query runs with: its own, and, on a model with a
    /// soft-delete column, that the column is null (or, with
    /// [`only_deleted`](Self::only_deleted), not null) unless
    /// [`with_deleted`](Self::with_deleted) was asked for.
    pub fn effective_filter(&self) -> (r: Filter<M>)
        ensures
            adds_cond(self@.filter, soft_delete_cond::<M>(self@.with_deleted, self@.only_deleted), r.node),
    {
        if !self.with_deleted {
            match M::DELETED_AT_COLUMN {
                Some(col) => {
                    let c = FilterNode::Null { table: M::TABLE, column: col, negated: self.only_deleted };
                    return Filter::new(with_cond(&self.filter.node, c));
                },
                None => {},
            }
        }
        self.filter.clone()
    }

    /// A filter the query may run with compiles as the one its contract
    /// names.
    proof fn lemma_effective(&self, f: FilterNode)
        requires
            adds_cond(self@.filter, soft_delete_cond::<M>(self@.with_deleted, self@.only_deleted), f),
        ensures
            forall|d: Dialect, kw: Seq<char>, k: nat| #[trigger] cond_clause(d, kw, f, k) == cond_clause(
                d,
                kw,
                effective_node::<M>(self@),
                k,
            ),
            main_text_for::<M>(self@, f) == main_text::<M>(self@),
    {
        let cond = soft_delete_cond::<M>(self@.with_deleted, self@.only_deleted);
        assert(adds_cond(self@.filter, cond, effective_node::<M>(self@)));
        lemma_adds_cond_unique(self@.filter, cond, f, effective_node::<M>(self@));
    }

    /// Whether the query loads every row of the table: no CTE, filter,
    /// limit, offset or `DISTINCT`.
    pub fn is_full_table(&self) -> (r: bool)
        ensures
            r == (self@.ctes.len() == 0 && self@.limit is None && self@.offset is None && !self@.distinct
                && is_trivial(self@.filter)),
    {
        let trivial = match &self.filter.node {
            FilterNode::And(v) => v.len() == 0,
            _ => false,
        };
        self.ctes.len() == 0 && self.limit.is_none() && self.offset.is_none() && !self.distinct && trivial
    }

    /// The error for a join the dialect cannot run, if the query has one.
    pub fn check_join_support(&self) -> (r: Result<(), Error>)
        ensures
            join_supported(self@.dialect, self@.join) <==> r is Ok,
            r matches Err(e) ==> e@ == ErrorView::Message(join_error_text(self@.dialect, self@.join->0.kind)),
    {
        match &self.join {
            Some(j) => {
                match j.kind {
                    JoinKind::Right => {
                        if !self.dialect.supports_right_join() {
                            let mut m = string_of("RIGHT JOIN is not supported by ");
                            m.append(self.dialect.name());
                            return Err(Error::Message(m));
                        }
                    },
                    JoinKind::Full => {
                        if !self.dialect.supports_full_join() {
                            let mut m = string_of("FULL OUTER JOIN is not supported by ");
                            m.append(self.dialect.name());
                            return Err(Error::Message(m));
                        }
                    },
                    _ => {},
                }
                Ok(())
            },
            None => Ok(()),
        }
    }

    /// Compiles the query without its CTEs.
    pub fn to_sql_without_cte(&self) -> (r: Result<CompiledSql, Error>)
        requires
            join_supported(self@.dialect, self@.join) ==> main_text::<M>(self@).2,
        ensures
            join_supported(self@.dialect, self@.join) <==> r is Ok,
            r matches Ok(c) ==> c.sql@ == main_text::<M>(self@).0 && views_of(c.binds@) == main_text::<M>(self@).1,
            r matches Err(e) ==> e@ == ErrorView::Message(join_error_text(self@.dialect, self@.join->0.kind)),
    {
        match self.check_join_support() {
            Err(e) => return Err(e),
            Ok(()) => {},
        }
        let eff = self.effective_filter();
        proof {
            self.lemma_effective(eff.node);
        }
        match &self.join {
            Some(j) => Ok(join_select_with_columns::<M>(
                self.dialect,
                M::TABLE,
                M::COLUMNS,
                j.right_table,
                j.right_columns,
                j.right_alias,
                j.kind,
                &j.on,
                &eff.node,
                self.order.as_slice(),
                self.limit,
                self.offset,
                self.distinct,
            )),
            None => Ok(select::<M>(
                self.dialect,
                M::TABLE,
                self.projection.as_slice(),
                &eff.node,
                self.order.as_slice(),
                self.limit,
                self.offset,
                self.distinct,
            )),
        }
    }

    /// Compiles the query, CTEs first.
    pub fn to_sql(&self) -> (r: Result<CompiledSql, Error>)
        requires
            join_supported(self@.dialect, self@.join) ==> query_text::<M>(self@).2,
        ensures
            join_supported(self@.dialect, self@.join) <==> r is Ok,
            r matches Ok(c) ==> c.sql@ == query_text::<M>(self@).0 && views_of(c.binds@) == query_text::<M>(self@).1,
            r matches Err(e) ==> e@ == ErrorView::Message(join_error_text(self@.dialect, self@.join->0.kind)),
    {
        match self.to_sql_without_cte() {
            Err(e) => Err(e),
            Ok(main) => Ok(with_cte_prefix(self.dialect, self.ctes.as_slice(), main)),
        }
    }

    /// Compiles the query into the body of a CTE.
    pub fn into_cte(self) -> (r: CteQuery)
        requires
            query_ok::<M>(self@),
        ensures
            r.spec_compiled().sql@ == query_text::<M>(self@).0,
            views_of(r.spec_compiled().binds@) == query_text::<M>(self@).1,
    {
        match self.to_sql() {
            Ok(c) => CteQuery::new(c),
            Err(_) => CteQuery::new(CompiledSql { sql: String::new(), binds: Vec::new() }),
        }
    }

    /// Compiles the query into the subquery of an `EXISTS` filter.
    pub fn into_exists(self) -> (r: ExistsSubquery)
        requires
            query_ok::<M>(self@),
        ensures
            r.spec_compiled().sql@ == query_text::<M>(self@).0,
            views_of(r.spec_compiled().binds@) == query_text::<M>(self@).1,
    {
        match self.to_sql() {
            Ok(c) => ExistsSubquery::from_compiled(c),
            Err(_) => ExistsSubquery::from_compiled(CompiledSql { sql: String::new(), binds: Vec::new() }),
        }
    }

    /// The statement that counts the matching rows; ordering and paging do
    /// not apply.
    pub fn count_sql(&self) -> (r: Result<CompiledSql, Error>)
        requires
            join_supported(self@.dialect, self@.join) ==> count_text(self@.dialect, M::TABLE@, effective_node::<M>(self@)).2
                && with_cte_text(
                self@.dialect,
                self@.ctes,
                count_text(self@.dialect, M::TABLE@, effective_node::<M>(self@)).0,
                count_text(self@.dialect, M::TABLE@, effective_node::<M>(self@)).1,
            ).2,
        ensures
            join_supported(self@.dialect, self@.join) <==> r is Ok,
            r matches Ok(c) ==> ({
                let t = count_text(self@.dialect, M::TABLE@, effective_node::<M>(self@));
                let w = with_cte_text(self@.dialect, self@.ctes, t.0, t.1);
                c.sql@ == w.0 && views_of(c.binds@) == w.1
            }),
    {
        match self.check_join_support() {
            Err(e) => Err(e),
            Ok(()) => {
                let eff = self.effective_filter();
                proof {
                    self.lemma_effective(eff.node);
                }
                let c = count::<M>(self.dialect, M::TABLE, &eff.node);
                Ok(with_cte_prefix(self.dialect, self.ctes.as_slice(), c))
            },
        }
    }

    /// The statement that tells whether any row matches.
    pub fn exists_sql(&self) -> (r: Result<CompiledSql, Error>)
        requires
            join_supported(self@.dialect, self@.join) ==> exists_text(self@.dialect, M::TABLE@, effective_node::<M>(self@)).2
                && with_cte_text(
                self@.dialect,
                self@.ctes,
                exists_text(self@.dialect, M::TABLE@, effective_node::<M>(self@)).0,
                exists_text(self@.dialect, M::TABLE@, effective_node::<M>(self@)).1,
            ).2,
        ensures
            join_supported(self@.dialect, self@.join) <==> r is Ok,
            r matches Ok(c) ==> ({
                let t = exists_text(self@.dialect, M::TABLE@, effective_node::<M>(self@));
                let w = with_cte_text(self@.dialect, self@.ctes, t.0, t.1);
                c.sql@ == w.0 && views_of(c.binds@) == w.1
            }),
    {
        match self.check_join_support() {
            Err(e) => Err(e),
            Ok(()) => {
                let eff = self.effective_filter();
                proof {
                    self.lemma_effective(eff.node);
                }
                let c = exists_select::<M>(self.dialect, M::TABLE, &eff.node);
                Ok(with_cte_prefix(self.dialect, self.ctes.as_slice(), c))
            },
        }
    }
}

/// The count a `COUNT(*)` query answered: the value of its last row;
/// refused when no row came back.
pub fn count_from_rows(counts: Vec<i64>) -> (r: Result<i64, Error>)
    ensures
        counts@.len() == 0 <==> r is Err,
        r matches Ok(n) ==> n == counts@.last(),
        r matches Err(e) ==> e@ == ErrorView::Message("COUNT(*) returned no row"@),
{
    let mut counts = counts;
    match counts.pop() {
        Some(n) => Ok(n),
        None => Err(Error::Message(string_of("COUNT(*) returned no row"))),
    }
}

/// What a [`SetOpQuery`] holds.
pub struct SetOpView {
    /// The target dialect.
    pub dialect: Dialect,
    /// The operation.
    pub op: SetOp,
    /// The left-hand statement.
    pub left: CompiledSql,
    /// The right-hand statement.
    pub right: CompiledSql,
    /// The CTEs of both sides, left first.
    pub ctes: Seq<Cte>,
    /// The limit on the combined result.
    pub limit: Option<u64>,
    /// The offset on the combined result.
    pub offset: Option<u64>,
    /// The first error met compiling the sides, if any.
    pub error: Option<Seq<char>>,
}

/// Two `SELECT`s combined by a set operation.
pub struct SetOpQuery<Out> {
    dialect: Dialect,
    op: SetOp,
    left: CompiledSql,
    right: CompiledSql,
    ctes: Vec<Cte>,
    limit: Option<u64>,
    offset: Option<u64>,
    side_error: Option<String>,
    _out: PhantomData<Out>,
}

impl<Out> View for SetOpQuery<Out> {
    type V = SetOpView;

    closed spec fn view(&self) -> SetOpView {
        SetOpView {
            dialect: self.dialect,
            op: self.op,
            left: self.left,
            right: self.right,
            ctes: self.ctes@,
            limit: self.limit,
            offset: self.offset,
            error: match self.side_error {
                Some(e) => Some(e@),
                None => None,
            },
        }
    }
}

/// The text after ` LIMIT n` and ` OFFSET n` are appended as given.
pub open spec fn paged_text(sql: Seq<char>, limit: Option<u64>, offset: Option<u64>) -> Seq<char> {
    sql + match limit {
        Some(n) => " LIMIT "@ + crate::text::decimal(n as nat),
        None => Seq::empty(),
    } + match offset {
        Some(n) => " OFFSET "@ + crate::text::decimal(n as nat),
        None => Seq::empty(),
    }
}

/// The message of the error for a set operation the dialect cannot run.
pub open spec fn set_op_error_text(d: Dialect, op: SetOp) -> Seq<char> {
    if op is Intersect {
        "INTERSECT is not supported by "@ + dialect_name(d)
    } else {
        "EXCEPT is not supported by "@ + dialect_name(d)
    }
}

/// Whether the dialect can run the set operation.
pub open spec fn set_op_supported(d: Dialect, op: SetOp) -> bool {
    (op is Intersect || op is Except) ==> set_difference_ok(d)
}

/// The combined statement before paging.
pub open spec fn combined_text(q: SetOpView) -> (Seq<char>, Seq<ValueView>, bool) {
    with_cte_text(
        q.dialect,
        q.ctes,
        set_op_body(q.dialect, q.op, q.left, q.right),
        views_of(q.left.binds@) + views_of(q.right.binds@),
    )
}

fn error_text(e: &Error) -> (r: String)
    ensures
        e@ matches ErrorView::Message(m) ==> r@ == m,
        !(e@ is Message) ==> r@ == Seq::<char>::empty(),
{
    match e {
        Error::Message(m) => string_of(m.as_str()),
        _ => String::new(),
    }
}

impl<Out> SetOpQuery<Out> {
    /// Combines `left` and `right` with `op`. The sides are compiled without
    /// their CTEs, which are gathered, left first, in front of the combined
    /// statement; a side that does not compile leaves its error for
    /// [`to_sql`](Self::to_sql).
    pub fn new<M: Model, M2: Model>(dialect: Dialect, op: SetOp, left: SelectQuery<M, Out>, right: SelectQuery<M2, Out>) -> (r: Self)
        requires
            join_supported(left@.dialect, left@.join) ==> main_text::<M>(left@).2,
            join_supported(right@.dialect, right@.join) ==> main_text::<M2>(right@).2,
        ensures
            r@.dialect == dialect,
            r@.op == op,
            r@.ctes == left@.ctes + right@.ctes,
            r@.limit is None,
            r@.offset is None,
            join_supported(left@.dialect, left@.join) ==> r@.left.sql@ == main_text::<M>(left@).0
                && views_of(r@.left.binds@) == main_text::<M>(left@).1,
            join_supported(right@.dialect, right@.join) ==> r@.right.sql@ == main_text::<M2>(right@).0
                && views_of(r@.right.binds@) == main_text::<M2>(right@).1,
            (r@.error is None) == (join_supported(left@.dialect, left@.join) && join_supported(right@.dialect, right@.join)),
            !join_supported(left@.dialect, left@.join) ==> r@.error == Some(join_error_text(left@.dialect, left@.join->0.kind)),
            join_supported(left@.dialect, left@.join) && !join_supported(right@.dialect, right@.join) ==> r@.error
                == Some(join_error_text(right@.dialect, right@.join->0.kind)),
    {
        let mut side_error: Option<String> = None;
        let left_sql = match left.to_sql_without_cte() {
            Ok(c) => c,
            Err(e) => {
                side_error = Some(error_text(&e));
                CompiledSql { sql: String::new(), binds: Vec::new() }
            },
        };
        let right_sql = match right.to_sql_without_cte() {
            Ok(c) => c,
            Err(e) => {
                if side_error.is_none() {
                    side_error = Some(error_text(&e));
                }
                CompiledSql { sql: String::new(), binds: Vec::new() }
            },
        };
        let mut ctes = left.ctes;
        let mut rest = right.ctes;
        ctes.append(&mut rest);
        SetOpQuery {
            dialect,
            op,
            left: left_sql,
            right: right_sql,
            ctes,
            limit: None,
            offset: None,
            side_error,
            _out: PhantomData,
        }
    }

    /// Sets the limit on the combined result.
    pub fn limit(self, n: u64) -> (r: Self)
        ensures
            r@ == (SetOpView { limit: Some(n), ..self@ }),
    {
        SetOpQuery { limit: Some(n), ..self }
    }

    /// Sets the limit on the combined result when one is given.
    pub fn limit_if(self, n: Option<u64>) -> (r: Self)
        ensures
            n is None ==> r@ == self@,
            n is Some ==> r@ == (SetOpView { limit: n, ..self@ }),
    {
        match n {
            Some(k) => self.limit(k),
            None => self,
        }
    }

    /// Sets the offset on the combined result.
    pub fn offset(self, n: u64) -> (r: Self)
        ensures
            r@ == (SetOpView { offset: Some(n), ..self@ }),
    {
        SetOpQuery { offset: Some(n), ..self }
    }

    /// Sets the offset on the combined result when one is given.
    pub fn offset_if(self, n: Option<u64>) -> (r: Self)
        ensures
            n is None ==> r@ == self@,
            n is Some ==> r@ == (SetOpView { offset: n, ..self@ }),
    {
        match n {
            Some(k) => self.offset(k),
            None => self,
        }
    }

    /// Compiles the combined query: the error a side left, or the error for
    /// an operation the dialect cannot run, or the statement with ` LIMIT`
    /// and ` OFFSET` appended.
    pub fn to_sql(&self) -> (r: Result<CompiledSql, Error>)
        requires
            self@.error is None && set_op_supported(self@.dialect, self@.op) ==> renumber_ok(
                self@.right,
                self@.left.binds@.len(),
            ) && combined_text(self@).2,
        ensures
            self@.error matches Some(m) ==> (r matches Err(e) && e@ == ErrorView::Message(m)),
            self@.error is None && !set_op_supported(self@.dialect, self@.op) ==> (r matches Err(e) && e@
                == ErrorView::Message(set_op_error_text(self@.dialect, self@.op))),
            self@.error is None && set_op_supported(self@.dialect, self@.op) ==> (r matches Ok(c) && c.sql@
                == paged_text(combined_text(self@).0, self@.limit, self@.offset) && views_of(c.binds@)
                == combined_text(self@).1),
    {
        match &self.side_error {
            Some(e) => {
                return Err(Error::Message(string_of(e.as_str())));
            },
            None => {},
        }
        match self.op {
            SetOp::Intersect => {
                if !self.dialect.supports_intersect() {
                    let mut m = string_of("INTERSECT is not supported by ");
                    m.append(self.dialect.name());
                    return Err(Error::Message(m));
                }
            },
            SetOp::Except => {
                if !self.dialect.supports_except() {
                    let mut m = string_of("EXCEPT is not supported by ");
                    m.append(self.dialect.name());
                    return Err(Error::Message(m));
                }
            },
            _ => {},
        }
        let l = self.left.clone();
        let rr = self.right.clone();
        proof {
            crate::value::lemma_views_of_index(l.binds@);
            crate::value::lemma_views_of_index(self.left.binds@);
            crate::value::lemma_views_of_index(rr.binds@);
            crate::value::lemma_views_of_index(self.right.binds@);
            assert(l.binds@.len() == self.left.binds@.len());
            assert(rr.binds@.len() == self.right.binds@.len());
            assert(renumbered_text(rr, l.binds@.len()) == renumbered_text(self.right, self.left.binds@.len()));
            assert(set_op_body(self.dialect, self.op, l, rr) == set_op_body(self.dialect, self.op, self.left, self.right));
        }
        let mut compiled = set_op(self.dialect, self.op, self.ctes.as_slice(), l, rr);
        let ghost base = compiled.sql@;
        match self.limit {
            Some(n) => {
                compiled.sql.append(" LIMIT ");
                crate::text::push_decimal(&mut compiled.sql, n);
            },
            None => {},
        }
        match self.offset {
            Some(n) => {
                compiled.sql.append(" OFFSET ");
                crate::text::push_decimal(&mut compiled.sql, n);
            },
            None => {},
        }
        proof {
            assert(compiled.sql@ =~= paged_text(base, self.limit, self.offset));
        }
        Ok(compiled)
    }
}

impl<M: Model, Out> SelectQuery<M, Out> {
    /// Combines this query with another using `UNION`.
    pub fn union<M2: Model>(self, other: SelectQuery<M2, Out>) -> (r: SetOpQuery<Out>)
        requires
            join_supported(self@.dialect, self@.join) ==> main_text::<M>(self@).2,
            join_supported(other@.dialect, other@.join) ==> main_text::<M2>(other@).2,
        ensures
            r@.op == SetOp::Union,
            r@.dialect == self@.dialect,
            r@.ctes == self@.ctes + other@.ctes,
    {
        let d = self.dialect;
        SetOpQuery::new(d, SetOp::Union, self, other)
    }

    /// Combines this query with another using `UNION ALL`.
    pub fn union_all<M2: Model>(self, other: SelectQuery<M2, Out>) -> (r: SetOpQuery<Out>)
        requires
            join_supported(self@.dialect, self@.join) ==> main_text::<M>(self@).2,
            join_supported(other@.dialect, other@.join) ==> main_text::<M2>(other@).2,
        ensures
            r@.op == SetOp::UnionAll,
            r@.dialect == self@.dialect,
            r@.ctes == self@.ctes + other@.ctes,
    {
        let d = self.dialect;
        SetOpQuery::new(d, SetOp::UnionAll, self, other)
    }

    /// Combines this query with another using `INTERSECT`.
    pub fn intersect<M2: Model>(self, other: SelectQuery<M2, Out>) -> (r: SetOpQuery<Out>)
        requires
            join_supported(self@.dialect, self@.join) ==> main_text::<M>(self@).2,
            join_supported(other@.dialect, other@.join) ==> main_text::<M2>(other@).2,
        ensures
            r@.op == SetOp::Intersect,
            r@.dialect == self@.dialect,
            r@.ctes == self@.ctes + other@.ctes,
    {
        let d = self.dialect;
        SetOpQuery::new(d, SetOp::Intersect, self, other)
    }

    /// Combines this query with another using `EXCEPT`.
    pub fn except<M2: Model>(self, other: SelectQuery<M2, Out>) -> (r: SetOpQuery<Out>)
        requires
            join_supported(self@.dialect, self@.join) ==> main_text::<M>(self@).2,
            join_supported(other@.dialect, other@.join) ==> main_text::<M2>(other@).2,
        ensures
            r@.op == SetOp::Except,
            r@.dialect == self@.dialect,
            r@.ctes == self@.ctes + other@.ctes,
    {
        let d = self.dialect;
        SetOpQuery::new(d, SetOp::Except, self, other)
    }
}

/// What an [`AggregateQuery`] holds.
pub struct AggregateView<M> {
    /// The target dialect.
    pub dialect: Dialect,
    /// The `WHERE` filter.
    pub filter: FilterNode,
    /// The aggregate expressions, in output order.
    pub aggregates: Seq<AggregateEntry>,
    /// The `GROUP BY` columns.
    pub group_by: Seq<&'static str>,
    /// The `HAVING` filter.
    pub having: FilterNode,
    /// The ordering.
    pub order: Seq<OrderBy<M>>,
    /// The limit.
    pub limit: Option<u64>,
    /// The offset.
    pub offset: Option<u64>,
    /// The common table expressions.
    pub ctes: Seq<Cte>,
}

/// A `SELECT` of aggregate expressions over model `M`, whose rows decode
/// into `R`.
pub struct AggregateQuery<M, R> {
    dialect: Dialect,
    filter: Filter<M>,
    aggregates: Vec<AggregateEntry>,
    group_by: Vec<&'static str>,
    having: Filter<M>,
    order: Vec<OrderBy<M>>,
    limit: Option<u64>,
    offset: Option<u64>,
    ctes: Vec<Cte>,
    _out: PhantomData<R>,
}

impl<M, R> View for AggregateQuery<M, R> {
    type V = AggregateView<M>;

    closed spec fn view(&self) -> AggregateView<M> {
        AggregateView {
            dialect: self.dialect,
            filter: self.filter.node,
            aggregates: self.aggregates@,
            group_by: self.group_by@,
            having: self.having.node,
            order: self.order@,
            limit: self.limit,
            offset: self.offset,
            ctes: self.ctes@,
        }
    }
}

/// The statement of an aggregate query, CTEs first.
pub open spec fn aggregate_query_text<M: Model>(q: AggregateView<M>) -> (Seq<char>, Seq<ValueView>, bool) {
    let m = aggregate_text::<M>(
        q.dialect,
        M::TABLE@,
        q.aggregates,
        q.filter,
        q.group_by,
        q.having,
        q.order,
        q.limit,
        q.offset,
    );
    let w = with_cte_text(q.dialect, q.ctes, m.0, m.1);
    (w.0, w.1, m.2 && w.2)
}

/// A `SELECT` grouped by columns, waiting for its aggregates.
pub struct GroupedQuery<M, Out> {
    inner: SelectQuery<M, Out>,
    group_by: Vec<&'static str>,
    having: Filter<M>,
}

/// What a [`GroupedQuery`] holds.
pub struct GroupedView<M> {
    /// The query being grouped.
    pub inner: SelectView<M>,
    /// The `GROUP BY` columns.
    pub group_by: Seq<&'static str>,
    /// The `HAVING` filter.
    pub having: FilterNode,
}

impl<M, Out> View for GroupedQuery<M, Out> {
    type V = GroupedView<M>;

    closed spec fn view(&self) -> GroupedView<M> {
        GroupedView { inner: self.inner@, group_by: self.group_by@, having: self.having.node }
    }
}

impl<M: Model, Out> SelectQuery<M, Out> {
    /// Turns the query into one returning the aggregate expressions
    /// `aggregates`, run with its [effective filter](Self::effective_filter);
    /// its ordering, paging and CTEs stay, its projection and join go.
    pub fn aggregate<R>(self, aggregates: Vec<AggregateEntry>) -> (r: AggregateQuery<M, R>)
        ensures
            adds_cond(self@.filter, soft_delete_cond::<M>(self@.with_deleted, self@.only_deleted), r@.filter),
            r@.dialect == self@.dialect,
            r@.aggregates == aggregates@,
            r@.group_by.len() == 0,
            is_trivial(r@.having),
            r@.order == self@.order,
            r@.limit == self@.limit,
            r@.offset == self@.offset,
            r@.ctes == self@.ctes,
    {
        let filter = self.effective_filter();
        AggregateQuery {
            dialect: self.dialect,
            filter,
            aggregates,
            group_by: Vec::new(),
            having: Filter::new(FilterNode::And(Vec::new())),
            order: self.order,
            limit: self.limit,
            offset: self.offset,
            ctes: self.ctes,
            _out: PhantomData,
        }
    }

    /// Groups the query by `columns`.
    pub fn group_by(self, columns: Vec<&'static str>) -> (r: GroupedQuery<M, Out>)
        ensures
            r@.inner == self@,
            r@.group_by == columns@,
            is_trivial(r@.having),
    {
        GroupedQuery { inner: self, group_by: columns, having: Filter::new(FilterNode::And(Vec::new())) }
    }
}

impl<M: Model, Out> GroupedQuery<M, Out> {
    /// Adds a `HAVING` filter with `AND`.
    pub fn having(self, f: Filter<M>) -> (r: Self)
        ensures
            r@.having matches FilterNode::And(v) && v@ == flat_children(seq![self@.having, f.node], true),
            r@ == (GroupedView { having: r@.having, ..self@ }),
    {
        GroupedQuery { having: self.having.and(f), ..self }
    }

    /// Adds a `HAVING` filter with `OR`.
    pub fn or_having(self, f: Filter<M>) -> (r: Self)
        ensures
            r@.having matches FilterNode::Or(v) && v@ == flat_children(seq![self@.having, f.node], false),
            r@ == (GroupedView { having: r@.having, ..self@ }),
    {
        GroupedQuery { having: self.having.or(f), ..self }
    }

    /// Adds a `HAVING` filter with `AND` when one is given.
    pub fn having_if(self, f: Option<Filter<M>>) -> (r: Self)
        ensures
            f is None ==> r@ == self@,
            f matches Some(g) ==> (r@.having matches FilterNode::And(v) && v@ == flat_children(
                seq![self@.having, g.node],
                true,
            )) && r@ == (GroupedView { having: r@.having, ..self@ }),
    {
        match f {
            Some(g) => self.having(g),
            None => self,
        }
    }

    /// Adds a `HAVING` filter with `OR` when one is given.
    pub fn or_having_if(self, f: Option<Filter<M>>) -> (r: Self)
        ensures
            f is None ==> r@ == self@,
            f matches Some(g) ==> (r@.having matches FilterNode::Or(v) && v@ == flat_children(
                seq![self@.having, g.node],
                false,
            )) && r@ == (GroupedView { having: r@.having, ..self@ }),
    {
        match f {
            Some(g) => self.or_having(g),
            None => self,
        }
    }

    /// Turns the grouped query into one returning the aggregate expressions
    /// `aggregates`. It keeps the filter as written: the soft-delete
    /// condition is not added here.
    pub fn aggregate<R>(self, aggregates: Vec<AggregateEntry>) -> (r: AggregateQuery<M, R>)
        ensures
            r@ == (AggregateView {
                dialect: self@.inner.dialect,
                filter: self@.inner.filter,
                aggregates: aggregates@,
                group_by: self@.group_by,
                having: self@.having,
                order: self@.inner.order,
                limit: self@.inner.limit,
                offset: self@.inner.offset,
                ctes: self@.inner.ctes,
            }),
    {
        AggregateQuery {
            dialect: self.inner.dialect,
            filter: self.inner.filter,
            aggregates,
            group_by: self.group_by,
            having: self.having,
            order: self.inner.order,
            limit: self.inner.limit,
            offset: self.inner.offset,
            ctes: self.inner.ctes,
            _out: PhantomData,
        }
    }
}

impl<M: Model, R> AggregateQuery<M, R> {
    /// Adds a `WHERE` filter with `AND`.
    pub fn filter(self, f: Filter<M>) -> (r: Self)
        ensures
            r@.filter matches FilterNode::And(v) && v@ == flat_children(seq![self@.filter, f.node], true),
            r@ == (AggregateView { filter: r@.filter, ..self@ }),
    {
        AggregateQuery { filter: self.filter.and(f), ..self }
    }

    /// Adds a `WHERE` filter with `OR`.
    pub fn or_filter(self, f: Filter<M>) -> (r: Self)
        ensures
            r@.filter matches FilterNode::Or(v) && v@ == flat_children(seq![self@.filter, f.node], false),
            r@ == (AggregateView { filter: r@.filter, ..self@ }),
    {
        AggregateQuery { filter: self.filter.or(f), ..self }
    }

    /// Adds a `WHERE` filter with `AND` when one is given.
    pub fn filter_if(self, f: Option<Filter<M>>) -> (r: Self)
        ensures
            f is None ==> r@ == self@,
            f matches Some(g) ==> (r@.filter matches FilterNode::And(v) && v@ == flat_children(
                seq![self@.filter, g.node],
                true,
            )) && r@ == (AggregateView { filter: r@.filter, ..self@ }),
    {
        match f {
            Some(g) => self.filter(g),
            None => self,
        }
    }

    /// Adds a `WHERE` filter with `OR` when one is given.
    pub fn or_filter_if(self, f: Option<Filter<M>>) -> (r: Self)
        ensures
            f is None ==> r@ == self@,
            f matches Some(g) ==> (r@.filter matches FilterNode::Or(v) && v@ == flat_children(
                seq![self@.filter, g.node],
                false,
            )) && r@ == (AggregateView { filter: r@.filter, ..self@ }),
    {
        match f {
            Some(g) => self.or_filter(g),
            None => self,
        }
    }

    /// Adds a `HAVING` filter with `AND`.
    pub fn having(self, f: Filter<M>) -> (r: Self)
        ensures
            r@.having matches FilterNode::And(v) && v@ == flat_children(seq![self@.having, f.node], true),
            r@ == (AggregateView { having: r@.having, ..self@ }),
    {
        AggregateQuery { having: self.having.and(f), ..self }
    }

    /// Adds a `HAVING` filter with `OR`.
    pub fn or_having(self, f: Filter<M>) -> (r: Self)
        ensures
            r@.having matches FilterNode::Or(v) && v@ == flat_children(seq![self@.having, f.node], false),
            r@ == (AggregateView { having: r@.having, ..self@ }),
    {
        AggregateQuery { having: self.having.or(f), ..self }
    }

    /// Adds a `HAVING` filter with `AND` when one is given.
    pub fn having_if(self, f: Option<Filter<M>>) -> (r: Self)
        ensures
            f is None ==> r@ == self@,
            f matches Some(g) ==> (r@.having matches FilterNode::And(v) && v@ == flat_children(
                seq![self@.having, g.node],
                true,
            )) && r@ == (AggregateView { having: r@.having, ..self@ }),
    {
        match f {
            Some(g) => self.having(g),
            None => self,
        }
    }

    /// Adds a `HAVING` filter with `OR` when one is given.
    pub fn or_having_if(self, f: Option<Filter<M>>) -> (r: Self)
        ensures
            f is None ==> r@ == self@,
            f matches Some(g) ==> (r@.having matches FilterNode::Or(v) && v@ == flat_children(
                seq![self@.having, g.node],
                false,
            )) && r@ == (AggregateView { having: r@.having, ..self@ }),
    {
        match f {
            Some(g) => self.or_having(g),
            None => self,
        }
    }

    /// Adds an ordering.
    pub fn order_by(self, o: OrderBy<M>) -> (r: Self)
        ensures
            r@ == (AggregateView { order: self@.order.push(o), ..self@ }),
    {
        let mut order = self.order;
        order.push(o);
        AggregateQuery { order, ..self }
    }

    /// Adds an ordering when one is given.
    pub fn order_by_if(self, o: Option<OrderBy<M>>) -> (r: Self)
        ensures
            o is None ==> r@ == self@,
            o matches Some(x) ==> r@ == (AggregateView { order: self@.order.push(x), ..self@ }),
    {
        match o {
            Some(x) => self.order_by(x),
            None => self,
        }
    }

    /// Sets the limit.
    pub fn limit(self, n: u64) -> (r: Self)
        ensures
            r@ == (AggregateView { limit: Some(n), ..self@ }),
    {
        AggregateQuery { limit: Some(n), ..self }
    }

    /// Sets the limit when one is given.
    pub fn limit_if(self, n: Option<u64>) -> (r: Self)
        ensures
            n is None ==> r@ == self@,
            n is Some ==> r@ == (AggregateView { limit: n, ..self@ }),
    {
        match n {
            Some(k) => self.limit(k),
            None => self,
        }
    }

    /// Sets the offset.
    pub fn offset(self, n: u64) -> (r: Self)
        ensures
            r@ == (AggregateView { offset: Some(n), ..self@ }),
    {
        AggregateQuery { offset: Some(n), ..self }
    }

    /// Sets the offset when one is given.
    pub fn offset_if(self, n: Option<u64>) -> (r: Self)
        ensures
            n is None ==> r@ == self@,
            n is Some ==> r@ == (AggregateView { offset: n, ..self@ }),
    {
        match n {
            Some(k) => self.offset(k),
            None => self,
        }
    }

    /// Compiles the query, CTEs first.
    pub fn to_sql(&self) -> (r: CompiledSql)
        requires
            aggregate_query_text::<M>(self@).2,
        ensures
            r.sql@ == aggregate_query_text::<M>(self@).0,
            views_of(r.binds@) == aggregate_query_text::<M>(self@).1,
    {
        let main = aggregate_select::<M>(
            self.dialect,
            M::TABLE,
            self.aggregates.as_slice(),
            &self.filter.node,
            self.group_by.as_slice(),
            &self.having.node,
            self.order.as_slice(),
            self.limit,
            self.offset,
        );
        with_cte_prefix(self.dialect, self.ctes.as_slice(), main)
    }
}

} // verus!
