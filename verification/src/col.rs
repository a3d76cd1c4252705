//! Typed column tokens.
use std::marker::PhantomData;

use vstd::prelude::*;

use crate::filter::{CmpOp, Filter, FilterNode, Subquery};
use crate::join::JoinOn;
use crate::json::{Json, JsonColumn, JsonPath, JsonPathSegment};
use crate::order::OrderBy;
use crate::value::{Encodable, Ordered, Value, ValueView};
use vstd::std_specs::convert::IntoSpec;

verus! {

/// A typed token for a physical column.
///
/// The `M` phantom type prevents mixing columns from different models into one
/// query. The `T` phantom type is the Rust type stored in the column, which is
/// used to type-check filter values at compile time.
#[derive(Debug, PartialEq, Eq)]
pub struct Column<M, T> {
    /// The SQL table name.
    pub table: &'static str,
    /// The SQL column name.
    pub column: &'static str,
    /// Ties the token to its model and value type.
    pub _marker: PhantomData<(M, T)>,
}

impl<M, T> Clone for Column<M, T> {
    fn clone(&self) -> (r: Self)
        ensures
            r.table == self.table,
            r.column == self.column,
    {
        Column { table: self.table, column: self.column, _marker: PhantomData }
    }
}

impl<M, T> Copy for Column<M, T> {

}

/// A comparison node `table.column op value`.
pub open spec fn is_cmp(node: FilterNode, table: &'static str, column: &'static str, op: CmpOp) -> bool {
    node matches FilterNode::Cmp { table: t, column: c, op: o, .. } && t == table && c == column && o == op
}

/// The value a comparison node binds.
pub open spec fn cmp_value(node: FilterNode) -> ValueView {
    node->Cmp_value@
}

/// What converting `v` into `T` and encoding it gives, where the conversion
/// is one Verus knows.
pub open spec fn converted<V: Into<T>, T: Encodable>(v: V, r: ValueView) -> bool {
    V::obeys_into_spec() ==> r == V::into_spec(v).encoded()
}

impl<M, T> Column<M, T> {
    /// Creates a new column token.
    pub fn new(table: &'static str, column: &'static str) -> (r: Self)
        ensures
            r.table == table,
            r.column == column,
    {
        Column { table, column, _marker: PhantomData }
    }

    /// Reference the same column in a join condition on the right side of another model.
    pub fn on<J>(self, other: Column<J, T>) -> (r: JoinOn)
        ensures
            r.spec_node() == (FilterNode::ColumnCmp {
                left_table: self.table,
                left_col: self.column,
                op: CmpOp::Eq,
                right_table: other.table,
                right_col: other.column,
            }),
    {
        JoinOn::new(self, other)
    }

    /// Use this column token with a different table name, typically a self-join alias.
    pub fn aliased(self, table: &'static str) -> (r: Self)
        ensures
            r.table == table,
            r.column == self.column,
    {
        Column { table, column: self.column, _marker: PhantomData }
    }

    /// `column IN (subquery)`.
    pub fn in_subquery(self, subquery: Subquery<T>) -> (r: Filter<M>)
        ensures
            r.node == (FilterNode::InSubquery {
                table: self.table,
                column: self.column,
                subquery: subquery.spec_compiled(),
                negated: false,
            }),
    {
        Filter::new(FilterNode::InSubquery {
            table: self.table,
            column: self.column,
            subquery: subquery.into_compiled(),
            negated: false,
        })
    }

    /// `column NOT IN (subquery)`.
    pub fn not_in_subquery(self, subquery: Subquery<T>) -> (r: Filter<M>)
        ensures
            r.node == (FilterNode::InSubquery {
                table: self.table,
                column: self.column,
                subquery: subquery.spec_compiled(),
                negated: true,
            }),
    {
        Filter::new(FilterNode::InSubquery {
            table: self.table,
            column: self.column,
            subquery: subquery.into_compiled(),
            negated: true,
        })
    }

    /// Correlate this column to an outer query's column (`inner_col = outer_col`).
    pub fn correlated_to<J>(self, other: Column<J, T>) -> (r: Filter<M>)
        ensures
            r.node == (FilterNode::ColumnCmp {
                left_table: self.table,
                left_col: self.column,
                op: CmpOp::Eq,
                right_table: other.table,
                right_col: other.column,
            }),
    {
        Filter::new(FilterNode::ColumnCmp {
            left_table: self.table,
            left_col: self.column,
            op: CmpOp::Eq,
            right_table: other.table,
            right_col: other.column,
        })
    }
}

/// Encodes each converted value of `values`.
fn encode_all<V: Into<T>, T: Encodable>(values: Vec<V>) -> (r: Vec<Value>)
    ensures
        r@.len() == values@.len(),
        forall|i: int| 0 <= i < values@.len() ==> converted::<V, T>(values@[i], #[trigger] r@[i]@),
{
    let ghost all = values@;
    let mut rest = values;
    let mut rev: Vec<Value> = Vec::new();
    while rest.len() > 0
        invariant
            rev@.len() + rest@.len() == all.len(),
            rest@ == all.take(rest@.len() as int),
            forall|i: int|
                0 <= i < rev@.len() ==> converted::<V, T>(all[all.len() - 1 - i], #[trigger] rev@[i]@),
        decreases rest@.len(),
    {
        let ghost n0 = rest@.len();
        let v = rest.pop().unwrap();
        proof {
            assert(v == all[n0 - 1]);
            assert(rest@ =~= all.take(n0 - 1));
        }
        let t: T = v.into();
        rev.push(t.to_value());
    }
    let mut out: Vec<Value> = Vec::new();
    while rev.len() > 0
        invariant
            rev@.len() + out@.len() == all.len(),
            forall|i: int|
                0 <= i < rev@.len() ==> converted::<V, T>(all[all.len() - 1 - i], #[trigger] rev@[i]@),
            forall|i: int| 0 <= i < out@.len() ==> converted::<V, T>(all[i], #[trigger] out@[i]@),
        decreases rev@.len(),
    {
        let ghost n0 = rev@.len();
        let ghost r0 = rev@;
        let v = rev.pop().unwrap();
        proof {
            assert(v == r0[n0 - 1]);
            assert(converted::<V, T>(all[all.len() - 1 - (n0 - 1)], r0[n0 - 1]@));
            assert forall|i: int| 0 <= i < rev@.len() implies converted::<V, T>(
                all[all.len() - 1 - i],
                #[trigger] rev@[i]@,
            ) by {
                assert(rev@[i] == r0[i]);
            }
        }
        let ghost o0 = out@;
        out.push(v);
        proof {
            assert forall|i: int| 0 <= i < out@.len() implies converted::<V, T>(
                all[i],
                #[trigger] out@[i]@,
            ) by {
                if i < o0.len() {
                    assert(out@[i] == o0[i]);
                }
            }
        }
    }
    out
}

impl<M, T: Encodable> Column<M, T> {
    /// `column = value`.
    pub fn eq<V: Into<T>>(self, value: V) -> (r: Filter<M>)
        ensures
            is_cmp(r.node, self.table, self.column, CmpOp::Eq),
            converted::<V, T>(value, cmp_value(r.node)),
    {
        let t: T = value.into();
        let v = t.to_value();
        Filter::new(FilterNode::Cmp { table: self.table, column: self.column, op: CmpOp::Eq, value: v })
    }

    /// `column <> value`.
    pub fn ne<V: Into<T>>(self, value: V) -> (r: Filter<M>)
        ensures
            is_cmp(r.node, self.table, self.column, CmpOp::Ne),
            converted::<V, T>(value, cmp_value(r.node)),
    {
        let t: T = value.into();
        let v = t.to_value();
        Filter::new(FilterNode::Cmp { table: self.table, column: self.column, op: CmpOp::Ne, value: v })
    }

    /// `column IN (values)`.
    pub fn in_<V: Into<T>>(self, values: Vec<V>) -> (r: Filter<M>)
        ensures
            r.node matches FilterNode::In { table, column, values: vs, negated } && table == self.table
                && column == self.column && negated == false && vs@.len() == values@.len() && forall|i: int|
                0 <= i < values@.len() ==> converted::<V, T>(values@[i], #[trigger] vs@[i]@),
    {
        let vs = encode_all::<V, T>(values);
        Filter::new(FilterNode::In { table: self.table, column: self.column, values: vs, negated: false })
    }

    /// `column IN (values)`.
    pub fn in_set<V: Into<T>>(self, values: Vec<V>) -> (r: Filter<M>)
        ensures
            r.node matches FilterNode::In { table, column, values: vs, negated } && table == self.table
                && column == self.column && negated == false && vs@.len() == values@.len() && forall|i: int|
                0 <= i < values@.len() ==> converted::<V, T>(values@[i], #[trigger] vs@[i]@),
    {
        let vs = encode_all::<V, T>(values);
        Filter::new(FilterNode::In { table: self.table, column: self.column, values: vs, negated: false })
    }

    /// `column NOT IN (values)`.
    pub fn not_in_set<V: Into<T>>(self, values: Vec<V>) -> (r: Filter<M>)
        ensures
            r.node matches FilterNode::In { table, column, values: vs, negated } && table == self.table
                && column == self.column && negated == true && vs@.len() == values@.len() && forall|i: int|
                0 <= i < values@.len() ==> converted::<V, T>(values@[i], #[trigger] vs@[i]@),
    {
        let vs = encode_all::<V, T>(values);
        Filter::new(FilterNode::In { table: self.table, column: self.column, values: vs, negated: true })
    }

    /// `ASC`.
    pub fn asc(self) -> (r: OrderBy<M>)
        ensures
            r.table == self.table,
            r.column == self.column,
            !r.desc,
            r.json_path is None,
            !r.text,
    {
        OrderBy::new(self.table, self.column, false)
    }

    /// `DESC`.
    pub fn desc(self) -> (r: OrderBy<M>)
        ensures
            r.table == self.table,
            r.column == self.column,
            r.desc,
            r.json_path is None,
            !r.text,
    {
        OrderBy::new(self.table, self.column, true)
    }
}

impl<M, T: Ordered> Column<M, T> {
    /// `column > value`.
    pub fn gt<V: Into<T>>(self, value: V) -> (r: Filter<M>)
        ensures
            is_cmp(r.node, self.table, self.column, CmpOp::Gt),
            converted::<V, T>(value, cmp_value(r.node)),
    {
        let t: T = value.into();
        let v = t.to_value();
        Filter::new(FilterNode::Cmp { table: self.table, column: self.column, op: CmpOp::Gt, value: v })
    }

    /// `column >= value`.
    pub fn gte<V: Into<T>>(self, value: V) -> (r: Filter<M>)
        ensures
            is_cmp(r.node, self.table, self.column, CmpOp::Gte),
            converted::<V, T>(value, cmp_value(r.node)),
    {
        let t: T = value.into();
        let v = t.to_value();
        Filter::new(FilterNode::Cmp { table: self.table, column: self.column, op: CmpOp::Gte, value: v })
    }

    /// `column < value`.
    pub fn lt<V: Into<T>>(self, value: V) -> (r: Filter<M>)
        ensures
            is_cmp(r.node, self.table, self.column, CmpOp::Lt),
            converted::<V, T>(value, cmp_value(r.node)),
    {
        let t: T = value.into();
        let v = t.to_value();
        Filter::new(FilterNode::Cmp { table: self.table, column: self.column, op: CmpOp::Lt, value: v })
    }

    /// `column <= value`.
    pub fn lte<V: Into<T>>(self, value: V) -> (r: Filter<M>)
        ensures
            is_cmp(r.node, self.table, self.column, CmpOp::Lte),
            converted::<V, T>(value, cmp_value(r.node)),
    {
        let t: T = value.into();
        let v = t.to_value();
        Filter::new(FilterNode::Cmp { table: self.table, column: self.column, op: CmpOp::Lte, value: v })
    }

    /// `column BETWEEN lo AND hi`.
    pub fn between<Lo: Into<T>, Hi: Into<T>>(self, lo: Lo, hi: Hi) -> (r: Filter<M>)
        ensures
            r.node matches FilterNode::Between { table, column, lo: l, hi: h } && table == self.table
                && column == self.column && converted::<Lo, T>(lo, l@) && converted::<Hi, T>(hi, h@),
    {
        let a: T = lo.into();
        let b: T = hi.into();
        Filter::new(FilterNode::Between {
            table: self.table,
            column: self.column,
            lo: a.to_value(),
            hi: b.to_value(),
        })
    }
}

fn pattern(prefix: bool, s: &str, suffix: bool) -> (r: String)
    ensures
        r@ == (if prefix { seq!['%'] } else { Seq::empty() }) + s@ + (if suffix {
            seq!['%']
        } else {
            Seq::empty()
        }),
{
    let mut out = String::new();
    if prefix {
        crate::text::push_char(&mut out, '%');
    }
    out.append(s);
    if suffix {
        crate::text::push_char(&mut out, '%');
    }
    proof {
        assert(out@ =~= (if prefix { seq!['%'] } else { Seq::<char>::empty() }) + s@ + (if suffix {
            seq!['%']
        } else {
            Seq::<char>::empty()
        }));
    }
    out
}

impl<M> Column<M, String> {
    /// `column LIKE '%pattern%'`.
    pub fn contains(self, pat: &str) -> (r: Filter<M>)
        ensures
            is_cmp(r.node, self.table, self.column, CmpOp::Like),
            cmp_value(r.node) == ValueView::Str(seq!['%'] + pat@ + seq!['%']),
    {
        let p = pattern(true, pat, true);
        Filter::new(FilterNode::Cmp { table: self.table, column: self.column, op: CmpOp::Like, value: Value::Str(p) })
    }

    /// `column LIKE 'pattern%'`.
    pub fn starts_with(self, prefix: &str) -> (r: Filter<M>)
        ensures
            is_cmp(r.node, self.table, self.column, CmpOp::Like),
            cmp_value(r.node) == ValueView::Str(prefix@ + seq!['%']),
    {
        let p = pattern(false, prefix, true);
        proof {
            assert(Seq::<char>::empty() + prefix@ + seq!['%'] =~= prefix@ + seq!['%']);
        }
        Filter::new(FilterNode::Cmp { table: self.table, column: self.column, op: CmpOp::Like, value: Value::Str(p) })
    }

    /// `column LIKE '%pattern'`.
    pub fn ends_with(self, suffix: &str) -> (r: Filter<M>)
        ensures
            is_cmp(r.node, self.table, self.column, CmpOp::Like),
            cmp_value(r.node) == ValueView::Str(seq!['%'] + suffix@),
    {
        let p = pattern(true, suffix, false);
        proof {
            assert(seq!['%'] + suffix@ + Seq::<char>::empty() =~= seq!['%'] + suffix@);
        }
        Filter::new(FilterNode::Cmp { table: self.table, column: self.column, op: CmpOp::Like, value: Value::Str(p) })
    }

    /// Case-insensitive pattern match (`ILIKE` on Postgres, `LIKE` on SQLite).
    pub fn ilike(self, pat: &str) -> (r: Filter<M>)
        ensures
            is_cmp(r.node, self.table, self.column, CmpOp::Ilike),
            cmp_value(r.node) == ValueView::Str(seq!['%'] + pat@ + seq!['%']),
    {
        let p = pattern(true, pat, true);
        Filter::new(FilterNode::Cmp { table: self.table, column: self.column, op: CmpOp::Ilike, value: Value::Str(p) })
    }
}

impl<M, T> Column<M, Option<T>> {
    /// `column IS NULL`.
    pub fn is_null(self) -> (r: Filter<M>)
        ensures
            r.node == (FilterNode::Null { table: self.table, column: self.column, negated: false }),
    {
        Filter::new(FilterNode::Null { table: self.table, column: self.column, negated: false })
    }

    /// `column IS NOT NULL`.
    pub fn is_not_null(self) -> (r: Filter<M>)
        ensures
            r.node == (FilterNode::Null { table: self.table, column: self.column, negated: true }),
    {
        Filter::new(FilterNode::Null { table: self.table, column: self.column, negated: true })
    }
}

impl<M> Column<M, Json> {
    /// Extract a JSON field by key (`column->'key'`).
    pub fn get(self, key: &'static str) -> (r: JsonColumn<M, Json>)
        ensures
            r.table == self.table,
            r.column == self.column,
            r.path.0@ == seq![JsonPathSegment::Key(key)],
            !r.text,
    {
        JsonColumn { table: self.table, column: self.column, path: JsonPath::key(key), text: false, _marker: PhantomData }
    }

    /// Extract a JSON field by key as text (`column->>'key'`).
    pub fn get_text(self, key: &'static str) -> (r: JsonColumn<M, String>)
        ensures
            r.table == self.table,
            r.column == self.column,
            r.path.0@ == seq![JsonPathSegment::Key(key)],
            r.text,
    {
        JsonColumn { table: self.table, column: self.column, path: JsonPath::key(key), text: true, _marker: PhantomData }
    }
}

/// A selection of columns that changes the output type of a query.
pub trait Projection<M> {
    /// The Rust type a row of the projection decodes into.
    type Output;

    /// The selected column names.
    spec fn spec_projection(&self) -> Seq<&'static str>;

    /// Returns the list of column names to select.
    fn projection(&self) -> (r: Vec<&'static str>)
        ensures
            r@ == self.spec_projection(),
    ;
}

impl<M, T> Projection<M> for Column<M, T> {
    type Output = (T,);

    open spec fn spec_projection(&self) -> Seq<&'static str> {
        seq![self.column]
    }

    fn projection(&self) -> (r: Vec<&'static str>) {
        let mut cols = Vec::new();
        cols.push(self.column);
        proof {
            assert(cols@ =~= seq![self.column]);
        }
        cols
    }
}

impl<M, T0> Projection<M> for (Column<M, T0>, ) {
    type Output = (T0, );

    open spec fn spec_projection(&self) -> Seq<&'static str> {
        seq![self.0.column]
    }

    fn projection(&self) -> (r: Vec<&'static str>) {
        let mut cols = Vec::new();
        cols.push(self.0.column);
        proof {
            assert(cols@ =~= seq![self.0.column]);
        }
        cols
    }
}

impl<M, T0, T1> Projection<M> for (Column<M, T0>, Column<M, T1>, ) {
    type Output = (T0, T1, );

    open spec fn spec_projection(&self) -> Seq<&'static str> {
        seq![self.0.column, self.1.column]
    }

    fn projection(&self) -> (r: Vec<&'static str>) {
        let mut cols = Vec::new();
        cols.push(self.0.column);
        cols.push(self.1.column);
        proof {
            assert(cols@ =~= seq![self.0.column, self.1.column]);
        }
        cols
    }
}

impl<M, T0, T1, T2> Projection<M> for (Column<M, T0>, Column<M, T1>, Column<M, T2>, ) {
    type Output = (T0, T1, T2, );

    open spec fn spec_projection(&self) -> Seq<&'static str> {
        seq![self.0.column, self.1.column, self.2.column]
    }

    fn projection(&self) -> (r: Vec<&'static str>) {
        let mut cols = Vec::new();
        cols.push(self.0.column);
        cols.push(self.1.column);
        cols.push(self.2.column);
        proof {
            assert(cols@ =~= seq![self.0.column, self.1.column, self.2.column]);
        }
        cols
    }
}

impl<M, T0, T1, T2, T3> Projection<M> for (Column<M, T0>, Column<M, T1>, Column<M, T2>, Column<M, T3>, ) {
    type Output = (T0, T1, T2, T3, );

    open spec fn spec_projection(&self) -> Seq<&'static str> {
        seq![self.0.column, self.1.column, self.2.column, self.3.column]
    }

    fn projection(&self) -> (r: Vec<&'static str>) {
        let mut cols = Vec::new();
        cols.push(self.0.column);
        cols.push(self.1.column);
        cols.push(self.2.column);
        cols.push(self.3.column);
        proof {
            assert(cols@ =~= seq![self.0.column, self.1.column, self.2.column, self.3.column]);
        }
        cols
    }
}

impl<M, T0, T1, T2, T3, T4> Projection<M> for (Column<M, T0>, Column<M, T1>, Column<M, T2>, Column<M, T3>, Column<M, T4>, ) {
    type Output = (T0, T1, T2, T3, T4, );

    open spec fn spec_projection(&self) -> Seq<&'static str> {
        seq![self.0.column, self.1.column, self.2.column, self.3.column, self.4.column]
    }

    fn projection(&self) -> (r: Vec<&'static str>) {
        let mut cols = Vec::new();
        cols.push(self.0.column);
        cols.push(self.1.column);
        cols.push(self.2.column);
        cols.push(self.3.column);
        cols.push(self.4.column);
        proof {
            assert(cols@ =~= seq![self.0.column, self.1.column, self.2.column, self.3.column, self.4.column]);
        }
        cols
    }
}

impl<M, T0, T1, T2, T3, T4, T5> Projection<M> for (Column<M, T0>, Column<M, T1>, Column<M, T2>, Column<M, T3>, Column<M, T4>, Column<M, T5>, ) {
    type Output = (T0, T1, T2, T3, T4, T5, );

    open spec fn spec_projection(&self) -> Seq<&'static str> {
        seq![self.0.column, self.1.column, self.2.column, self.3.column, self.4.column, self.5.column]
    }

    fn projection(&self) -> (r: Vec<&'static str>) {
        let mut cols = Vec::new();
        cols.push(self.0.column);
        cols.push(self.1.column);
        cols.push(self.2.column);
        cols.push(self.3.column);
        cols.push(self.4.column);
        cols.push(self.5.column);
        proof {
            assert(cols@ =~= seq![self.0.column, self.1.column, self.2.column, self.3.column, self.4.column, self.5.column]);
        }
        cols
    }
}

impl<M, T0, T1, T2, T3, T4, T5, T6> Projection<M> for (Column<M, T0>, Column<M, T1>, Column<M, T2>, Column<M, T3>, Column<M, T4>, Column<M, T5>, Column<M, T6>, ) {
    type Output = (T0, T1, T2, T3, T4, T5, T6, );

    open spec fn spec_projection(&self) -> Seq<&'static str> {
        seq![self.0.column, self.1.column, self.2.column, self.3.column, self.4.column, self.5.column, self.6.column]
    }

    fn projection(&self) -> (r: Vec<&'static str>) {
        let mut cols = Vec::new();
        cols.push(self.0.column);
        cols.push(self.1.column);
        cols.push(self.2.column);
        cols.push(self.3.column);
        cols.push(self.4.column);
        cols.push(self.5.column);
        cols.push(self.6.column);
        proof {
            assert(cols@ =~= seq![self.0.column, self.1.column, self.2.column, self.3.column, self.4.column, self.5.column, self.6.column]);
        }
        cols
    }
}

impl<M, T0, T1, T2, T3, T4, T5, T6, T7> Projection<M> for (Column<M, T0>, Column<M, T1>, Column<M, T2>, Column<M, T3>, Column<M, T4>, Column<M, T5>, Column<M, T6>, Column<M, T7>, ) {
    type Output = (T0, T1, T2, T3, T4, T5, T6, T7, );

    open spec fn spec_projection(&self) -> Seq<&'static str> {
        seq![self.0.column, self.1.column, self.2.column, self.3.column, self.4.column, self.5.column, self.6.column, self.7.column]
    }

    fn projection(&self) -> (r: Vec<&'static str>) {
        let mut cols = Vec::new();
        cols.push(self.0.column);
        cols.push(self.1.column);
        cols.push(self.2.column);
        cols.push(self.3.column);
        cols.push(self.4.column);
        cols.push(self.5.column);
        cols.push(self.6.column);
        cols.push(self.7.column);
        proof {
            assert(cols@ =~= seq![self.0.column, self.1.column, self.2.column, self.3.column, self.4.column, self.5.column, self.6.column, self.7.column]);
        }
        cols
    }
}

} // verus!
