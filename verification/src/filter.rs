//! Filter algebra and constructors.
use std::marker::PhantomData;

use vstd::prelude::*;

use crate::compile::CompiledSql;
use crate::text::decimal;
use crate::text::push_char;
use crate::text::push_decimal;
use crate::value::{copy_values, views_of, Value};

verus! {

/// An injection-safe raw SQL fragment with bound parameters.
///
/// The literal parts are stored separately, and values are bound as
/// parameters. There is always exactly one more part than there are binds:
/// the parts split the fragment around each placeholder.
#[derive(Debug, Clone, PartialEq)]
pub struct RawFragment {
    /// Literal fragments of the SQL, between placeholders.
    pub(crate) parts: Vec<String>,
    /// Bound values for each placeholder.
    pub(crate) binds: Vec<Value>,
}

/// The text of raw `parts` with `$n` markers after each of the first `nb`
/// parts, numbered from `first`.
pub open spec fn raw_dollar_text(parts: Seq<String>, nb: nat, first: nat) -> Seq<char>
    decreases parts.len(),
{
    if parts.len() == 0 {
        Seq::empty()
    } else {
        let i = (parts.len() - 1) as nat;
        raw_dollar_text(parts.drop_last(), nb, first) + parts.last()@ + if i < nb {
            seq!['$'] + decimal(first + i)
        } else {
            Seq::empty()
        }
    }
}

impl RawFragment {
    /// Creates a new raw fragment from the literal parts around each bind.
    pub fn new(parts: Vec<String>, binds: Vec<Value>) -> (r: Self)
        requires
            parts@.len() == binds@.len() + 1,
        ensures
            r.spec_parts() == parts@,
            r.spec_binds() == binds@,
    {
        RawFragment { parts, binds }
    }

    /// The literal parts.
    pub closed spec fn spec_parts(&self) -> Seq<String> {
        self.parts@
    }

    /// The bound values.
    pub closed spec fn spec_binds(&self) -> Seq<Value> {
        self.binds@
    }

    /// The literal parts, borrowed.
    pub fn parts_ref(&self) -> (r: &Vec<String>)
        ensures
            r@ == self.spec_parts(),
    {
        &self.parts
    }

    /// The bound values, borrowed.
    pub fn binds_ref(&self) -> (r: &Vec<Value>)
        ensures
            r@ == self.spec_binds(),
    {
        &self.binds
    }

    /// Returns the SQL fragment with `$1`, `$2`, ... placeholders.
    pub fn sql(&self) -> (r: String)
        requires
            self.spec_binds().len() < u64::MAX,
        ensures
            r@ == raw_dollar_text(self.spec_parts(), self.spec_binds().len(), 1),
    {
        let mut out = String::new();
        let mut i: usize = 0;
        while i < self.parts.len()
            invariant
                i <= self.parts@.len(),
                self.binds@.len() < u64::MAX,
                out@ == raw_dollar_text(self.parts@.take(i as int), self.binds@.len(), 1),
            decreases self.parts@.len() - i,
        {
            let ghost before = out@;
            out.append(self.parts[i].as_str());
            if i < self.binds.len() {
                push_char(&mut out, '$');
                push_decimal(&mut out, i as u64 + 1);
            }
            proof {
                let t = self.parts@.take(i + 1);
                assert(t.drop_last() =~= self.parts@.take(i as int));
                assert(t.last() == self.parts@[i as int]);
                assert(out@ =~= raw_dollar_text(t, self.binds@.len(), 1));
            }
            i = i + 1;
        }
        proof {
            assert(self.parts@.take(self.parts@.len() as int) =~= self.parts@);
        }
        out
    }

    /// A copy with the same parts and binds of the same values.
    pub fn duplicate(&self) -> (r: Self)
        ensures
            r.spec_parts() == self.spec_parts(),
            views_of(r.spec_binds()) == views_of(self.spec_binds()),
    {
        let mut parts: Vec<String> = Vec::new();
        let mut i: usize = 0;
        while i < self.parts.len()
            invariant
                i <= self.parts@.len(),
                parts@ == self.parts@.take(i as int),
            decreases self.parts@.len() - i,
        {
            parts.push(self.parts[i].clone());
            i = i + 1;
            proof {
                assert(parts@ =~= self.parts@.take(i as int));
            }
        }
        proof {
            assert(self.parts@.take(self.parts@.len() as int) =~= self.parts@);
        }
        RawFragment { parts, binds: copy_values(&self.binds) }
    }

    /// Returns the bound values for this fragment.
    pub fn binds(&self) -> (r: &[Value])
        ensures
            r@ == self.spec_binds(),
    {
        self.binds.as_slice()
    }
}

/// JSON-specific filter operations.
#[derive(Debug, Clone, Copy, PartialEq, Eq)]
pub enum JsonFilterOp {
    /// A scalar comparison (`=`, `<>`, `>`, ...).
    Cmp(CmpOp),
    /// JSON containment (`@>`).
    Contains,
    /// Top-level or nested key existence (`?`).
    HasKey,
}

/// Comparison operators.
#[derive(Debug, Clone, Copy, PartialEq, Eq)]
pub enum CmpOp {
    /// `=`
    Eq,
    /// `!=`
    Ne,
    /// `>`
    Gt,
    /// `>=`
    Gte,
    /// `<`
    Lt,
    /// `<=`
    Lte,
    /// `LIKE`
    Like,
    /// `ILIKE`
    Ilike,
}

/// A filter node, independent of the model it operates on.
#[derive(Debug, PartialEq)]
pub enum FilterNode {
    /// `table.column op value`.
    Cmp { table: &'static str, column: &'static str, op: CmpOp, value: Value },
    /// `table.column BETWEEN lo AND hi`.
    Between { table: &'static str, column: &'static str, lo: Value, hi: Value },
    /// `table.column IS [NOT] NULL`.
    Null { table: &'static str, column: &'static str, negated: bool },
    /// `table.column [NOT] IN (values)`.
    In { table: &'static str, column: &'static str, values: Vec<Value>, negated: bool },
    /// `column [NOT] IN (subquery)`.
    InSubquery {
        table: &'static str,
        column: &'static str,
        subquery: CompiledSql,
        negated: bool,
    },
    /// A comparison between two columns, used for join `ON` clauses.
    ColumnCmp {
        left_table: &'static str,
        left_col: &'static str,
        op: CmpOp,
        right_table: &'static str,
        right_col: &'static str,
    },
    /// Correlated `EXISTS (SELECT 1 FROM child_table WHERE child_fk = parent_pk AND filter)`.
    Exists {
        child_table: &'static str,
        child_col: &'static str,
        parent_table: &'static str,
        parent_col: &'static str,
        filter: Box<FilterNode>,
        negated: bool,
    },
    /// Correlated `[NOT] EXISTS (<subquery>)`.
    ExistsSubquery { subquery: CompiledSql, negated: bool },
    /// Conjunction; empty is `TRUE`.
    And(Vec<FilterNode>),
    /// Disjunction; empty is `FALSE`.
    Or(Vec<FilterNode>),
    /// Negation.
    Not(Box<FilterNode>),
    /// A raw SQL fragment with bound parameters.
    Raw(RawFragment),
}

/// Whether `node` is the empty conjunction, which the compiler leaves out.
pub open spec fn is_trivial(node: FilterNode) -> bool {
    node matches FilterNode::And(v) && v@.len() == 0
}

/// The children a node contributes to a flattened conjunction
/// (`and == true`) or disjunction (`and == false`).
pub open spec fn flat_part(node: FilterNode, and: bool) -> Seq<FilterNode> {
    match node {
        FilterNode::And(c) => if and {
            c@
        } else {
            seq![node]
        },
        FilterNode::Or(c) => if and {
            seq![node]
        } else {
            c@
        },
        _ => seq![node],
    }
}

/// The nodes of a flattened conjunction or disjunction of `nodes`.
pub open spec fn flat_children(nodes: Seq<FilterNode>, and: bool) -> Seq<FilterNode>
    decreases nodes.len(),
{
    if nodes.len() == 0 {
        Seq::empty()
    } else {
        flat_children(nodes.drop_last(), and) + flat_part(nodes.last(), and)
    }
}

/// Combines `nodes` into one `And` (when `and`) or `Or` node, splicing in the
/// children of nested nodes of the same kind.
pub fn flatten(nodes: Vec<FilterNode>, and: bool) -> (r: FilterNode)
    ensures
        and ==> (r matches FilterNode::And(v) && v@ == flat_children(nodes@, true)),
        !and ==> (r matches FilterNode::Or(v) && v@ == flat_children(nodes@, false)),
{
    let ghost all = nodes@;
    let mut rest = nodes;
    let mut rev: Vec<FilterNode> = Vec::new();
    while rest.len() > 0
        invariant
            rev@ + rest@.reverse() =~= all.reverse(),
        decreases rest@.len(),
    {
        let ghost before = rest@;
        let n = rest.pop().unwrap();
        rev.push(n);
        proof {
            assert(before =~= rest@.push(n));
            assert(before.reverse() =~= seq![n] + rest@.reverse());
        }
    }
    let mut out: Vec<FilterNode> = Vec::new();
    while rev.len() > 0
        invariant
            rev@.len() <= all.len(),
            rev@ =~= all.subrange(all.len() - rev@.len(), all.len() as int).reverse(),
            out@ == flat_children(all.take(all.len() - rev@.len()), and),
        decreases rev@.len(),
    {
        let ghost k = all.len() - rev@.len();
        let ghost before = rev@;
        let n = rev.pop().unwrap();
        proof {
            assert(n == all[k]);
            assert(rev@ =~= all.subrange(k + 1, all.len() as int).reverse());
            assert(all.take(k + 1).drop_last() =~= all.take(k));
            assert(all.take(k + 1).last() == n);
        }
        let ghost prev = out@;
        match n {
            FilterNode::And(mut c) => {
                if and {
                    out.append(&mut c);
                } else {
                    out.push(FilterNode::And(c));
                }
            },
            FilterNode::Or(mut c) => {
                if and {
                    out.push(FilterNode::Or(c));
                } else {
                    out.append(&mut c);
                }
            },
            other => {
                out.push(other);
            },
        }
        proof {
            assert(out@ =~= prev + flat_part(n, and));
        }
    }
    proof {
        assert(all.take(all.len() as int) =~= all);
    }
    if and {
        FilterNode::And(out)
    } else {
        FilterNode::Or(out)
    }
}

/// A predicate that is tied to a model `M`.
#[derive(Debug)]
pub struct Filter<M> {
    /// The root filter node.
    pub node: FilterNode,
    /// Ties the filter to its model.
    pub _marker: PhantomData<M>,
}

impl<M> Filter<M> {
    /// Creates a new filter.
    pub fn new(node: FilterNode) -> (r: Self)
        ensures
            r.node == node,
    {
        Filter { node, _marker: PhantomData }
    }

    /// Combines two filters with `AND`, splicing nested conjunctions.
    pub fn and(self, other: Self) -> (r: Self)
        ensures
            r.node matches FilterNode::And(v) && v@ == flat_children(
                seq![self.node, other.node],
                true,
            ),
    {
        let mut v = Vec::new();
        v.push(self.node);
        v.push(other.node);
        proof {
            assert(v@ =~= seq![self.node, other.node]);
        }
        Filter::new(flatten(v, true))
    }

    /// Combines two filters with `OR`, splicing nested disjunctions.
    pub fn or(self, other: Self) -> (r: Self)
        ensures
            r.node matches FilterNode::Or(v) && v@ == flat_children(
                seq![self.node, other.node],
                false,
            ),
    {
        let mut v = Vec::new();
        v.push(self.node);
        v.push(other.node);
        proof {
            assert(v@ =~= seq![self.node, other.node]);
        }
        Filter::new(flatten(v, false))
    }

    /// Negates the filter: `NOT (...)`.
    pub fn not(self) -> (r: Self)
        ensures
            r.node == FilterNode::Not(Box::new(self.node)),
    {
        Filter::new(FilterNode::Not(Box::new(self.node)))
    }

    /// Creates a filter from a raw SQL fragment.
    pub fn raw(fragment: RawFragment) -> (r: Self)
        ensures
            r.node == FilterNode::Raw(fragment),
    {
        Filter::new(FilterNode::Raw(fragment))
    }

    /// `EXISTS (subquery)`.
    pub fn exists_query(subquery: ExistsSubquery) -> (r: Self)
        ensures
            r.node == (FilterNode::ExistsSubquery { subquery: subquery.spec_compiled(), negated: false }),
    {
        Filter::new(FilterNode::ExistsSubquery { subquery: subquery.compiled, negated: false })
    }

    /// `NOT EXISTS (subquery)`.
    pub fn not_exists(subquery: ExistsSubquery) -> (r: Self)
        ensures
            r.node == (FilterNode::ExistsSubquery { subquery: subquery.spec_compiled(), negated: true }),
    {
        Filter::new(FilterNode::ExistsSubquery { subquery: subquery.compiled, negated: true })
    }
}

impl<M> std::ops::Not for Filter<M> {
    type Output = Self;

    fn not(self) -> (r: Self) {
        Filter { node: FilterNode::Not(Box::new(self.node)), _marker: self._marker }
    }
}

impl<M> vstd::std_specs::ops::NotSpecImpl for Filter<M> {
    open spec fn obeys_not_spec() -> bool {
        true
    }

    open spec fn not_req(self) -> bool {
        true
    }

    open spec fn not_spec(self) -> Self {
        Filter { node: FilterNode::Not(Box::new(self.node)), _marker: self._marker }
    }
}

/// The nodes of a list of filters.
pub open spec fn nodes_of<M>(filters: Seq<Filter<M>>) -> Seq<FilterNode> {
    filters.map_values(|f: Filter<M>| f.node)
}

fn into_nodes<M>(filters: Vec<Filter<M>>) -> (r: Vec<FilterNode>)
    ensures
        r@ == nodes_of(filters@),
{
    let ghost all = filters@;
    let mut rest = filters;
    let mut rev: Vec<FilterNode> = Vec::new();
    while rest.len() > 0
        invariant
            rev@ + nodes_of(rest@).reverse() =~= nodes_of(all).reverse(),
        decreases rest@.len(),
    {
        let ghost before = rest@;
        let f = rest.pop().unwrap();
        rev.push(f.node);
        proof {
            assert(before =~= rest@.push(f));
            assert(nodes_of(before) =~= nodes_of(rest@).push(f.node));
            assert(nodes_of(before).reverse() =~= seq![f.node] + nodes_of(rest@).reverse());
        }
    }
    let mut out: Vec<FilterNode> = Vec::new();
    while rev.len() > 0
        invariant
            rev@.len() + out@.len() == all.len(),
            out@ + rev@.reverse() =~= nodes_of(all),
        decreases rev@.len(),
    {
        let ghost before = rev@;
        let n = rev.pop().unwrap();
        out.push(n);
        proof {
            assert(before =~= rev@.push(n));
            assert(before.reverse() =~= seq![n] + rev@.reverse());
        }
    }
    proof {
        assert(out@ =~= nodes_of(all));
    }
    out
}

/// Combines a list of filters with `AND`; `all([])` is `TRUE`.
pub fn all<M>(filters: Vec<Filter<M>>) -> (r: Filter<M>)
    ensures
        r.node matches FilterNode::And(v) && v@ == flat_children(nodes_of(filters@), true),
{
    Filter::new(flatten(into_nodes(filters), true))
}

/// Combines a list of filters with `OR`; `any([])` is `FALSE`.
pub fn any<M>(filters: Vec<Filter<M>>) -> (r: Filter<M>)
    ensures
        r.node matches FilterNode::Or(v) && v@ == flat_children(nodes_of(filters@), false),
{
    Filter::new(flatten(into_nodes(filters), false))
}

/// A compiled `SELECT` subquery that returns a single column of type `T`.
pub struct Subquery<T> {
    /// The compiled SQL of the subquery, including its bound values.
    pub(crate) compiled: CompiledSql,
    pub(crate) _marker: PhantomData<T>,
}

impl<T> Clone for Subquery<T> {
    fn clone(&self) -> (r: Self)
        ensures
            r.spec_compiled().sql@ == self.spec_compiled().sql@,
            views_of(r.spec_compiled().binds@) == views_of(self.spec_compiled().binds@),
    {
        Subquery { compiled: self.compiled.clone(), _marker: PhantomData }
    }
}

impl<T> Subquery<T> {
    /// Wraps a compiled single-column `SELECT`.
    pub fn from_compiled(compiled: CompiledSql) -> (r: Self)
        ensures
            r.spec_compiled() == compiled,
    {
        Subquery { compiled, _marker: PhantomData }
    }

    /// The compiled statement.
    pub closed spec fn spec_compiled(&self) -> CompiledSql {
        self.compiled
    }

    /// The compiled statement, taken out of the wrapper.
    pub fn into_compiled(self) -> (r: CompiledSql)
        ensures
            r == self.spec_compiled(),
    {
        self.compiled
    }
}

/// A compiled subquery used by `EXISTS` / `NOT EXISTS` filters.
#[derive(Debug, Clone, PartialEq)]
pub struct ExistsSubquery {
    pub(crate) compiled: CompiledSql,
}

impl ExistsSubquery {
    /// Wraps any compiled `SELECT`.
    pub fn from_compiled(compiled: CompiledSql) -> (r: Self)
        ensures
            r.spec_compiled() == compiled,
    {
        ExistsSubquery { compiled }
    }

    /// The compiled statement.
    pub closed spec fn spec_compiled(&self) -> CompiledSql {
        self.compiled
    }

    /// The compiled statement, taken out of the wrapper.
    pub fn into_compiled(self) -> (r: CompiledSql)
        ensures
            r == self.spec_compiled(),
    {
        self.compiled
    }
}

/// A compiled common table expression (CTE).
#[derive(Debug, Clone, PartialEq)]
pub struct Cte {
    /// The CTE name.
    pub name: &'static str,
    /// The compiled body.
    pub compiled: CompiledSql,
    /// Whether this CTE is recursive.
    pub recursive: bool,
}

impl Cte {
    /// Creates a new non-recursive CTE.
    pub fn new(name: &'static str, compiled: CompiledSql) -> (r: Self)
        ensures
            r.name == name,
            r.compiled == compiled,
            !r.recursive,
    {
        Cte { name, compiled, recursive: false }
    }
}

/// A compiled query that can be used as the body of a CTE.
#[derive(Debug, Clone, PartialEq)]
pub struct CteQuery {
    pub(crate) compiled: CompiledSql,
}

impl CteQuery {
    /// Wraps a compiled query.
    pub fn new(compiled: CompiledSql) -> (r: Self)
        ensures
            r.spec_compiled() == compiled,
    {
        CteQuery { compiled }
    }

    /// The compiled statement.
    pub closed spec fn spec_compiled(&self) -> CompiledSql {
        self.compiled
    }

    /// The compiled statement, taken out of the wrapper.
    pub fn into_compiled(self) -> (r: CompiledSql)
        ensures
            r == self.spec_compiled(),
    {
        self.compiled
    }
}

} // verus!
