//! Tree hierarchy queries and in-memory tree reconstruction.
//!
//! [`HierarchyQuery`] compiles `.ancestors()` and `.descendants()` queries to a
//! recursive CTE; [`HierarchyNode`] holds a reconstructed tree.
use std::marker::PhantomData;

use vstd::prelude::*;

use crate::compile::CompiledSql;
use crate::dialect::{placeholder_text, quoted, str_views, Dialect};
use crate::model::Model;
use crate::text::{decimal, lemma_sep_join_push, push_char, push_decimal, sep_join};
use crate::value::{copy_value, same_value, views_of, Value, ValueView};

verus! {

/// The direction of hierarchy traversal.
#[derive(Debug, Clone, Copy, PartialEq, Eq)]
pub enum HierarchyDirection {
    /// Walk up the hierarchy from child to root (`c.id = h.parent_id`).
    Ancestors,
    /// Walk down the hierarchy from parent to descendants (`c.parent_id = h.id`).
    Descendants,
}

/// A sort direction for the depth of hierarchy results.
#[derive(Debug, Clone, Copy, PartialEq, Eq)]
pub enum SortOrder {
    /// Closest to the start node first.
    Asc,
    /// Furthest from the start node first.
    Desc,
}

/// A node in an in-memory reconstructed tree hierarchy.
#[derive(Debug, PartialEq)]
pub struct HierarchyNode<M> {
    /// The entity model at this node.
    pub item: M,
    /// The distance from the queried root node (root is depth 0).
    pub depth: usize,
    /// Children of this node in the hierarchy.
    pub children: Vec<HierarchyNode<M>>,
}

/// The number of nodes in the subtree rooted at `n`.
pub open spec fn node_count<M>(n: HierarchyNode<M>) -> nat
    decreases n,
{
    1 + children_count(n.children@)
}

/// The total number of nodes in the subtrees `s`.
pub open spec fn children_count<M>(s: Seq<HierarchyNode<M>>) -> nat
    decreases s,
{
    if s.len() == 0 {
        0
    } else {
        children_count(s.drop_last()) + node_count(s.last())
    }
}

/// The height of the subtree rooted at `n`: the largest distance from `n` to
/// a descendant.
pub open spec fn height<M>(n: HierarchyNode<M>) -> nat
    decreases n,
{
    children_height(n.children@)
}

/// The largest `1 + height(c)` over the subtrees `s`, or 0 for none.
pub open spec fn children_height<M>(s: Seq<HierarchyNode<M>>) -> nat
    decreases s,
{
    if s.len() == 0 {
        0
    } else {
        let a = children_height(s.drop_last());
        let b = 1 + height(s.last());
        if a >= b {
            a
        } else {
            b
        }
    }
}

/// The items of the subtree rooted at `n` in pre-order.
pub open spec fn preorder<M>(n: HierarchyNode<M>) -> Seq<M>
    decreases n,
{
    seq![n.item] + children_preorder(n.children@)
}

/// The pre-order items of the subtrees `s`, one after another.
pub open spec fn children_preorder<M>(s: Seq<HierarchyNode<M>>) -> Seq<M>
    decreases s,
{
    if s.len() == 0 {
        Seq::empty()
    } else {
        children_preorder(s.drop_last()) + preorder(s.last())
    }
}

/// A subtree's height is below its node count.
pub proof fn lemma_height_below_count<M>(n: HierarchyNode<M>)
    ensures
        height(n) < node_count(n),
    decreases n,
{
    lemma_children_height_le_count(n.children@);
}

/// The height of a forest is at most its node count.
pub proof fn lemma_children_height_le_count<M>(s: Seq<HierarchyNode<M>>)
    ensures
        children_height(s) <= children_count(s),
    decreases s,
{
    if s.len() > 0 {
        lemma_children_height_le_count(s.drop_last());
        lemma_height_below_count(s.last());
    }
}

/// The pre-order listing of a subtree has one entry per node, so
/// `count()` equals `flatten().len()`.
pub proof fn lemma_preorder_len<M>(n: HierarchyNode<M>)
    ensures
        preorder(n).len() == node_count(n),
    decreases n,
{
    lemma_children_preorder_len(n.children@);
}

/// The pre-order listing of a forest has one entry per node.
pub proof fn lemma_children_preorder_len<M>(s: Seq<HierarchyNode<M>>)
    ensures
        children_preorder(s).len() == children_count(s),
    decreases s,
{
    if s.len() > 0 {
        lemma_children_preorder_len(s.drop_last());
        lemma_preorder_len(s.last());
    }
}

/// The references `r` point at the items `items`, in order.
pub open spec fn refs_to<M>(r: Seq<&M>, items: Seq<M>) -> bool {
    r.len() == items.len() && forall|i: int| 0 <= i < r.len() ==> *#[trigger] r[i] == items[i]
}

impl<M> HierarchyNode<M> {
    /// Creates a new hierarchy node with no children.
    pub fn new(item: M, depth: usize) -> (r: Self)
        ensures
            r.item == item,
            r.depth == depth,
            r.children@.len() == 0,
    {
        HierarchyNode { item, depth, children: Vec::new() }
    }

    /// Total number of nodes in this subtree (including self).
    pub fn count(&self) -> (r: usize)
        requires
            node_count(*self) <= usize::MAX,
        ensures
            r == node_count(*self),
        decreases *self,
    {
        let mut total: usize = 1;
        let mut i: usize = 0;
        while i < self.children.len()
            invariant
                i <= self.children@.len(),
                node_count(*self) <= usize::MAX,
                node_count(*self) == 1 + children_count(self.children@),
                total == 1 + children_count(self.children@.take(i as int)),
            decreases self.children@.len() - i,
        {
            proof {
                let t = self.children@.take(i + 1);
                assert(t.drop_last() =~= self.children@.take(i as int));
                lemma_children_count_prefix(self.children@, i + 1);
                assert(decreases_to!(*self => self.children));
                vstd::std_specs::vec::axiom_vec_index_decreases(self.children, i as int);
                lemma_children_count_member(self.children@, i as int);
            }
            let c = self.children[i].count();
            total = total + c;
            i = i + 1;
        }
        proof {
            assert(self.children@.take(self.children@.len() as int) =~= self.children@);
        }
        total
    }

    /// Maximum depth of any descendant relative to this node (self is 0).
    pub fn max_subtree_depth(&self) -> (r: usize)
        requires
            node_count(*self) <= usize::MAX,
        ensures
            r == height(*self),
        decreases *self,
    {
        let mut best: usize = 0;
        let mut i: usize = 0;
        proof {
            lemma_height_below_count(*self);
        }
        while i < self.children.len()
            invariant
                i <= self.children@.len(),
                node_count(*self) <= usize::MAX,
                node_count(*self) == 1 + children_count(self.children@),
                best == children_height(self.children@.take(i as int)),
            decreases self.children@.len() - i,
        {
            proof {
                let t = self.children@.take(i + 1);
                assert(t.drop_last() =~= self.children@.take(i as int));
                assert(decreases_to!(*self => self.children));
                vstd::std_specs::vec::axiom_vec_index_decreases(self.children, i as int);
                lemma_children_count_member(self.children@, i as int);
                lemma_height_below_count(self.children@[i as int]);
            }
            let d = self.children[i].max_subtree_depth();
            if d + 1 > best {
                best = d + 1;
            }
            i = i + 1;
        }
        proof {
            assert(self.children@.take(self.children@.len() as int) =~= self.children@);
        }
        best
    }

    /// Flattens this tree into a `Vec` of references in pre-order traversal.
    pub fn flatten(&self) -> (r: Vec<&M>)
        ensures
            refs_to(r@, preorder(*self)),
    {
        let mut out: Vec<&M> = Vec::new();
        self.collect_flat(&mut out);
        proof {
            assert forall|i: int| 0 <= i < out@.len() implies *#[trigger] out@[i]
                == preorder(*self)[i] by {
                assert(out@[0 + i] == out@[i]);
            }
        }
        out
    }

    fn collect_flat<'a>(&'a self, out: &mut Vec<&'a M>)
        ensures
            final(out)@.len() == old(out)@.len() + preorder(*self).len(),
            forall|i: int| 0 <= i < old(out)@.len() ==> #[trigger] final(out)@[i] == old(out)@[i],
            forall|i: int|
                0 <= i < preorder(*self).len() ==> *#[trigger] final(out)@[old(out)@.len() + i]
                    == preorder(*self)[i],
        decreases *self,
    {
        let ghost start = out@.len();
        out.push(&self.item);
        let mut i: usize = 0;
        proof {
            assert(self.children@.take(0) =~= Seq::<HierarchyNode<M>>::empty());
        }
        while i < self.children.len()
            invariant
                i <= self.children@.len(),
                start == old(out)@.len(),
                out@.len() == start + 1 + children_preorder(self.children@.take(i as int)).len(),
                forall|j: int| 0 <= j < start ==> #[trigger] out@[j] == old(out)@[j],
                *out@[start as int] == self.item,
                forall|j: int|
                    0 <= j < children_preorder(self.children@.take(i as int)).len() ==> *#[trigger] out@[start
                        + 1 + j] == children_preorder(self.children@.take(i as int))[j],
            decreases self.children@.len() - i,
        {
            proof {
                assert(decreases_to!(*self => self.children));
                vstd::std_specs::vec::axiom_vec_index_decreases(self.children, i as int);
            }
            let ghost before = out@;
            self.children[i].collect_flat(out);
            proof {
                let t = self.children@.take(i + 1);
                assert(t.drop_last() =~= self.children@.take(i as int));
                let p = children_preorder(self.children@.take(i as int));
                let q = preorder(self.children@[i as int]);
                assert(children_preorder(t) == p + q);
                assert forall|j: int| 0 <= j < (p + q).len() implies *#[trigger] out@[start + 1 + j]
                    == (p + q)[j] by {
                    if j < p.len() {
                        assert(out@[start + 1 + j] == before[start + 1 + j]);
                    } else {
                        assert(out@[before.len() + (j - p.len())] == q[j - p.len()]);
                    }
                }
                assert forall|j: int| 0 <= j < start implies #[trigger] out@[j] == old(out)@[j] by {
                    assert(out@[j] == before[j]);
                }
                assert(out@[start as int] == before[start as int]);
            }
            i = i + 1;
        }
        proof {
            assert(self.children@.take(self.children@.len() as int) =~= self.children@);
            let p = children_preorder(self.children@);
            assert(preorder(*self) == seq![self.item] + p);
            assert forall|j: int| 0 <= j < preorder(*self).len() implies *#[trigger] out@[start + j]
                == preorder(*self)[j] by {
                if j > 0 {
                    assert(out@[start + 1 + (j - 1)] == p[j - 1]);
                }
            }
        }
    }
}

/// The node count of a prefix of a forest, extended by one subtree.
pub proof fn lemma_children_count_prefix<M>(s: Seq<HierarchyNode<M>>, i: int)
    requires
        0 <= i <= s.len(),
    ensures
        children_count(s.take(i)) <= children_count(s),
    decreases s.len(),
{
    if i < s.len() {
        lemma_children_count_prefix(s.drop_last(), i);
        assert(s.drop_last().take(i) =~= s.take(i));
    } else {
        assert(s.take(i) =~= s);
    }
}

/// One subtree of a forest has no more nodes than the forest.
pub proof fn lemma_children_count_member<M>(s: Seq<HierarchyNode<M>>, i: int)
    requires
        0 <= i < s.len(),
    ensures
        node_count(s[i]) <= children_count(s),
        children_count(s.take(i)) + node_count(s[i]) <= children_count(s),
    decreases s.len(),
{
    if i < s.len() - 1 {
        lemma_children_count_member(s.drop_last(), i);
        assert(s.drop_last()[i] == s[i]);
        assert(s.drop_last().take(i) =~= s.take(i));
    } else {
        assert(s.drop_last() =~= s.take(i));
    }
}

/// The quoted column list of a hierarchy query, or `*` without columns.
pub open spec fn hierarchy_cols(d: Dialect, cols: Seq<Seq<char>>) -> Seq<char> {
    if cols.len() == 0 {
        "*"@
    } else {
        sep_join(cols.map_values(|c: Seq<char>| quoted(d, c)), ", "@)
    }
}

/// The quoted column list qualified by the alias `c`, or `c.*`.
pub open spec fn hierarchy_child_cols(d: Dialect, cols: Seq<Seq<char>>) -> Seq<char> {
    if cols.len() == 0 {
        "c.*"@
    } else {
        sep_join(cols.map_values(|c: Seq<char>| "c."@ + quoted(d, c)), ", "@)
    }
}

/// How the recursive member joins the rows found so far.
pub open spec fn hierarchy_join(d: Dialect, direction: HierarchyDirection, pk: Seq<char>, fk: Seq<char>) -> Seq<char> {
    match direction {
        HierarchyDirection::Descendants => "c."@ + quoted(d, fk) + " = h."@ + quoted(d, pk),
        HierarchyDirection::Ancestors => "c."@ + quoted(d, pk) + " = h."@ + quoted(d, fk),
    }
}

/// The bound on the recursion: the maximum depth, or 100 levels as cycle
/// protection, or none.
pub open spec fn hierarchy_depth_cond(max_depth: Option<usize>, cycle_protection: bool) -> Seq<char> {
    match max_depth {
        Some(m) => "h.__depth < "@ + decimal(m as nat),
        None => if cycle_protection {
            "h.__depth < 100"@
        } else {
            "1 = 1"@
        },
    }
}

/// The ordering of the results by depth.
pub open spec fn hierarchy_order(order: Option<SortOrder>) -> Seq<char> {
    match order {
        Some(SortOrder::Asc) => " ORDER BY __depth ASC"@,
        Some(SortOrder::Desc) => " ORDER BY __depth DESC"@,
        None => Seq::empty(),
    }
}

/// The recursive query that walks a hierarchy from the row whose primary key
/// is the first bind.
pub open spec fn hierarchy_text(
    d: Dialect,
    table: Seq<char>,
    pk: Seq<char>,
    fk: Seq<char>,
    cols: Seq<Seq<char>>,
    direction: HierarchyDirection,
    max_depth: Option<usize>,
    order: Option<SortOrder>,
    cycle_protection: bool,
) -> Seq<char> {
    "WITH RECURSIVE __hierarchy AS (\n  SELECT "@ + hierarchy_cols(d, cols) + ", 0 AS __depth FROM "@
        + quoted(d, table) + " WHERE "@ + quoted(d, pk) + " = "@ + placeholder_text(d, 0)
        + "\n  UNION ALL\n  SELECT "@ + hierarchy_child_cols(d, cols)
        + ", h.__depth + 1 AS __depth FROM "@ + quoted(d, table) + " c JOIN __hierarchy h ON "@
        + hierarchy_join(d, direction, pk, fk) + " WHERE "@ + hierarchy_depth_cond(
        max_depth,
        cycle_protection,
    ) + "\n)\nSELECT "@ + hierarchy_cols(d, cols) + " FROM __hierarchy"@ + hierarchy_order(order)
}

/// A query for the ancestors or the descendants of one row of a
/// self-referencing table, compiled to a recursive CTE.
pub struct HierarchyQuery<M> {
    dialect: Dialect,
    table: &'static str,
    pk_col: &'static str,
    parent_fk_col: &'static str,
    start_id: Value,
    direction: HierarchyDirection,
    max_depth: Option<usize>,
    order_by_depth: Option<SortOrder>,
    cycle_protection: bool,
    _marker: PhantomData<M>,
}

impl<M: Model> HierarchyQuery<M> {
    /// The dialect.
    pub closed spec fn spec_dialect(&self) -> Dialect {
        self.dialect
    }

    /// The table.
    pub closed spec fn spec_table(&self) -> &'static str {
        self.table
    }

    /// The primary-key column.
    pub closed spec fn spec_pk_col(&self) -> &'static str {
        self.pk_col
    }

    /// The column that points at the parent row.
    pub closed spec fn spec_parent_fk_col(&self) -> &'static str {
        self.parent_fk_col
    }

    /// The primary key of the row the walk starts from.
    pub closed spec fn spec_start_id(&self) -> Value {
        self.start_id
    }

    /// The direction of the walk.
    pub closed spec fn spec_direction(&self) -> HierarchyDirection {
        self.direction
    }

    /// The maximum depth, if any.
    pub closed spec fn spec_max_depth(&self) -> Option<usize> {
        self.max_depth
    }

    /// The ordering by depth, if any.
    pub closed spec fn spec_order(&self) -> Option<SortOrder> {
        self.order_by_depth
    }

    /// Whether the walk stops after 100 levels when no maximum is set.
    pub closed spec fn spec_cycle_protection(&self) -> bool {
        self.cycle_protection
    }

    /// Creates a new hierarchy query, with cycle protection and no maximum
    /// depth or ordering.
    pub fn new(
        dialect: Dialect,
        table: &'static str,
        pk_col: &'static str,
        parent_fk_col: &'static str,
        start_id: Value,
        direction: HierarchyDirection,
    ) -> (r: Self)
        ensures
            r.spec_dialect() == dialect,
            r.spec_table() == table,
            r.spec_pk_col() == pk_col,
            r.spec_parent_fk_col() == parent_fk_col,
            r.spec_start_id() == start_id,
            r.spec_direction() == direction,
            r.spec_max_depth() is None,
            r.spec_order() is None,
            r.spec_cycle_protection(),
    {
        HierarchyQuery {
            dialect,
            table,
            pk_col,
            parent_fk_col,
            start_id,
            direction,
            max_depth: None,
            order_by_depth: None,
            cycle_protection: true,
            _marker: PhantomData,
        }
    }

    /// A query for the ancestors of `start_id`, up to the root.
    pub fn ancestors<K: crate::value::Encodable>(
        dialect: Dialect,
        table: &'static str,
        pk_col: &'static str,
        parent_fk_col: &'static str,
        start_id: K,
    ) -> (r: Self)
        ensures
            r.spec_dialect() == dialect,
            r.spec_table() == table,
            r.spec_pk_col() == pk_col,
            r.spec_parent_fk_col() == parent_fk_col,
            r.spec_start_id()@ == start_id.encoded(),
            r.spec_direction() == HierarchyDirection::Ancestors,
            r.spec_max_depth() is None,
            r.spec_order() is None,
            r.spec_cycle_protection(),
    {
        Self::new(dialect, table, pk_col, parent_fk_col, start_id.to_value(), HierarchyDirection::Ancestors)
    }

    /// A query for the descendants of `start_id`, through all subtrees.
    pub fn descendants<K: crate::value::Encodable>(
        dialect: Dialect,
        table: &'static str,
        pk_col: &'static str,
        parent_fk_col: &'static str,
        start_id: K,
    ) -> (r: Self)
        ensures
            r.spec_dialect() == dialect,
            r.spec_table() == table,
            r.spec_pk_col() == pk_col,
            r.spec_parent_fk_col() == parent_fk_col,
            r.spec_start_id()@ == start_id.encoded(),
            r.spec_direction() == HierarchyDirection::Descendants,
            r.spec_max_depth() is None,
            r.spec_order() is None,
            r.spec_cycle_protection(),
    {
        Self::new(dialect, table, pk_col, parent_fk_col, start_id.to_value(), HierarchyDirection::Descendants)
    }

    /// Limits the walk to `depth` levels.
    pub fn max_depth(self, depth: usize) -> (r: Self)
        ensures
            r.spec_dialect() == self.spec_dialect(),
            r.spec_table() == self.spec_table(),
            r.spec_pk_col() == self.spec_pk_col(),
            r.spec_parent_fk_col() == self.spec_parent_fk_col(),
            r.spec_start_id() == self.spec_start_id(),
            r.spec_direction() == self.spec_direction(),
            r.spec_max_depth() == Some(depth),
            r.spec_order() == self.spec_order(),
            r.spec_cycle_protection() == self.spec_cycle_protection(),
    {
        HierarchyQuery { max_depth: Some(depth), ..self }
    }

    /// Orders results by depth ascending (closest to the start row first).
    pub fn order_by_depth_asc(self) -> (r: Self)
        ensures
            r.spec_dialect() == self.spec_dialect(),
            r.spec_table() == self.spec_table(),
            r.spec_pk_col() == self.spec_pk_col(),
            r.spec_parent_fk_col() == self.spec_parent_fk_col(),
            r.spec_start_id() == self.spec_start_id(),
            r.spec_direction() == self.spec_direction(),
            r.spec_max_depth() == self.spec_max_depth(),
            r.spec_order() == Some(SortOrder::Asc),
            r.spec_cycle_protection() == self.spec_cycle_protection(),
    {
        HierarchyQuery { order_by_depth: Some(SortOrder::Asc), ..self }
    }

    /// Orders results by depth descending (furthest from the start row first).
    pub fn order_by_depth_desc(self) -> (r: Self)
        ensures
            r.spec_dialect() == self.spec_dialect(),
            r.spec_table() == self.spec_table(),
            r.spec_pk_col() == self.spec_pk_col(),
            r.spec_parent_fk_col() == self.spec_parent_fk_col(),
            r.spec_start_id() == self.spec_start_id(),
            r.spec_direction() == self.spec_direction(),
            r.spec_max_depth() == self.spec_max_depth(),
            r.spec_order() == Some(SortOrder::Desc),
            r.spec_cycle_protection() == self.spec_cycle_protection(),
    {
        HierarchyQuery { order_by_depth: Some(SortOrder::Desc), ..self }
    }

    /// Turns the 100-level cycle protection on or off.
    pub fn cycle_protection(self, enabled: bool) -> (r: Self)
        ensures
            r.spec_dialect() == self.spec_dialect(),
            r.spec_table() == self.spec_table(),
            r.spec_pk_col() == self.spec_pk_col(),
            r.spec_parent_fk_col() == self.spec_parent_fk_col(),
            r.spec_start_id() == self.spec_start_id(),
            r.spec_direction() == self.spec_direction(),
            r.spec_max_depth() == self.spec_max_depth(),
            r.spec_order() == self.spec_order(),
            r.spec_cycle_protection() == enabled,
    {
        HierarchyQuery { cycle_protection: enabled, ..self }
    }

    /// Compiles the query: the recursive CTE, with the start row's primary
    /// key as its one bind.
    pub fn to_sql(&self) -> (r: CompiledSql)
        ensures
            r.sql@ == hierarchy_text(
                self.spec_dialect(),
                self.spec_table()@,
                self.spec_pk_col()@,
                self.spec_parent_fk_col()@,
                str_views(M::COLUMNS@),
                self.spec_direction(),
                self.spec_max_depth(),
                self.spec_order(),
                self.spec_cycle_protection(),
            ),
            views_of(r.binds@) == seq![self.spec_start_id()@],
    {
        let d = self.dialect;
        let cols_str = column_text(d, M::COLUMNS);
        let c_cols = child_column_text(d, M::COLUMNS);
        let mut sql = String::new();
        sql.append("WITH RECURSIVE __hierarchy AS (\n  SELECT ");
        sql.append(cols_str.as_str());
        sql.append(", 0 AS __depth FROM ");
        d.push_quoted(&mut sql, self.table);
        sql.append(" WHERE ");
        d.push_quoted(&mut sql, self.pk_col);
        sql.append(" = ");
        d.push_placeholder(&mut sql, 0);
        sql.append("\n  UNION ALL\n  SELECT ");
        sql.append(c_cols.as_str());
        sql.append(", h.__depth + 1 AS __depth FROM ");
        d.push_quoted(&mut sql, self.table);
        sql.append(" c JOIN __hierarchy h ON ");
        push_join(&mut sql, d, self.direction, self.pk_col, self.parent_fk_col);
        sql.append(" WHERE ");
        push_depth_cond(&mut sql, self.max_depth, self.cycle_protection);
        sql.append("\n)\nSELECT ");
        sql.append(cols_str.as_str());
        sql.append(" FROM __hierarchy");
        push_depth_order(&mut sql, self.order_by_depth);
        let mut binds: Vec<Value> = Vec::new();
        let start = copy_value(&self.start_id);
        binds.push(start);
        proof {
            assert(sql@ =~= hierarchy_text(
                d,
                self.table@,
                self.pk_col@,
                self.parent_fk_col@,
                str_views(M::COLUMNS@),
                self.direction,
                self.max_depth,
                self.order_by_depth,
                self.cycle_protection,
            ));
            assert(binds@.drop_last() =~= Seq::<Value>::empty());
            assert(views_of(binds@) == views_of(binds@.drop_last()).push(binds@.last()@));
            assert(views_of(binds@) =~= seq![self.start_id@]);
        }
        CompiledSql { sql, binds }
    }
}

fn column_text(d: Dialect, cols: &[&str]) -> (r: String)
    ensures
        r@ == hierarchy_cols(d, str_views(cols@)),
{
    let mut out = String::new();
    if cols.len() == 0 {
        out.append("*");
    } else {
        d.push_quoted_list(&mut out, cols);
    }
    out
}

fn child_column_text(d: Dialect, cols: &[&str]) -> (r: String)
    ensures
        r@ == hierarchy_child_cols(d, str_views(cols@)),
{
    let ghost cv = str_views(cols@);
    let mut out = String::new();
    if cols.len() == 0 {
        out.append("c.*");
        return out;
    }
    let mut i: usize = 0;
    proof {
        assert(cv.take(0).map_values(|c: Seq<char>| "c."@ + quoted(d, c)) =~= Seq::<Seq<char>>::empty());
    }
    while i < cols.len()
        invariant
            i <= cols@.len(),
            cv == str_views(cols@),
            out@ == sep_join(cv.take(i as int).map_values(|c: Seq<char>| "c."@ + quoted(d, c)), ", "@),
        decreases cols@.len() - i,
    {
        let ghost parts = cv.take(i as int).map_values(|c: Seq<char>| "c."@ + quoted(d, c));
        let ghost x = "c."@ + quoted(d, cv[i as int]);
        let ghost before = out@;
        if i > 0 {
            out.append(", ");
        }
        out.append("c.");
        d.push_quoted(&mut out, cols[i]);
        proof {
            assert(cv[i as int] == cols@[i as int]@);
            assert(cv.take(i + 1).map_values(|c: Seq<char>| "c."@ + quoted(d, c)) =~= parts.push(x));
            lemma_sep_join_push(parts, ", "@, x);
            if i == 0 {
                assert(parts =~= Seq::<Seq<char>>::empty());
                assert(out@ =~= x);
            } else {
                assert(out@ =~= before + ", "@ + x);
            }
        }
        i = i + 1;
    }
    proof {
        assert(cv.take(cols@.len() as int) =~= cv);
    }
    out
}

fn push_join(out: &mut String, d: Dialect, direction: HierarchyDirection, pk: &str, fk: &str)
    ensures
        final(out)@ == old(out)@ + hierarchy_join(d, direction, pk@, fk@),
{
    match direction {
        HierarchyDirection::Descendants => {
            out.append("c.");
            d.push_quoted(out, fk);
            out.append(" = h.");
            d.push_quoted(out, pk);
        },
        HierarchyDirection::Ancestors => {
            out.append("c.");
            d.push_quoted(out, pk);
            out.append(" = h.");
            d.push_quoted(out, fk);
        },
    }
    proof {
        assert(out@ =~= old(out)@ + hierarchy_join(d, direction, pk@, fk@));
    }
}

fn push_depth_cond(out: &mut String, max_depth: Option<usize>, cycle_protection: bool)
    ensures
        final(out)@ == old(out)@ + hierarchy_depth_cond(max_depth, cycle_protection),
{
    match max_depth {
        Some(m) => {
            out.append("h.__depth < ");
            push_decimal(out, m as u64);
        },
        None => {
            if cycle_protection {
                out.append("h.__depth < 100");
            } else {
                out.append("1 = 1");
            }
        },
    }
    proof {
        assert(out@ =~= old(out)@ + hierarchy_depth_cond(max_depth, cycle_protection));
    }
}

fn push_depth_order(out: &mut String, order: Option<SortOrder>)
    ensures
        final(out)@ == old(out)@ + hierarchy_order(order),
{
    match order {
        Some(SortOrder::Asc) => out.append(" ORDER BY __depth ASC"),
        Some(SortOrder::Desc) => out.append(" ORDER BY __depth DESC"),
        None => {},
    }
    proof {
        assert(out@ =~= old(out)@ + hierarchy_order(order));
    }
}

/// Every node of the subtree rooted at `n` sits `d` levels below the root,
/// its children one level further down.
pub open spec fn depths_from<M>(n: HierarchyNode<M>, d: nat) -> bool
    decreases n,
{
    n.depth == d && children_depths(n.children@, d + 1)
}

/// Every subtree of `s` is rooted `d` levels down.
pub open spec fn children_depths<M>(s: Seq<HierarchyNode<M>>, d: nat) -> bool
    decreases s,
{
    s.len() == 0 || (children_depths(s.drop_last(), d) && depths_from(s.last(), d))
}

/// The number of filled slots.
pub open spec fn filled<T>(s: Seq<Option<T>>) -> nat
    decreases s.len(),
{
    if s.len() == 0 {
        0
    } else {
        filled(s.drop_last()) + if s.last() is Some {
            1nat
        } else {
            0nat
        }
    }
}

/// Emptying a filled slot leaves one filled slot fewer.
proof fn lemma_filled_take<T>(s: Seq<Option<T>>, i: int)
    requires
        0 <= i < s.len(),
        s[i] is Some,
    ensures
        filled(s.update(i, None)) + 1 == filled(s),
    decreases s.len(),
{
    if i < s.len() - 1 {
        lemma_filled_take(s.drop_last(), i);
        assert(s.update(i, None).drop_last() =~= s.drop_last().update(i, None));
    } else {
        assert(s.update(i, None).drop_last() =~= s.drop_last());
    }
}

/// At most every slot is filled.
proof fn lemma_filled_le_len<T>(s: Seq<Option<T>>)
    ensures
        filled(s) <= s.len(),
    decreases s.len(),
{
    if s.len() > 0 {
        lemma_filled_le_len(s.drop_last());
    }
}

/// Every slot of `s` is filled.
proof fn lemma_filled_all<T>(s: Seq<Option<T>>)
    requires
        forall|i: int| 0 <= i < s.len() ==> (#[trigger] s[i]) is Some,
    ensures
        filled(s) == s.len(),
    decreases s.len(),
{
    if s.len() > 0 {
        lemma_filled_all(s.drop_last());
    }
}

/// The node for `item` (whose id is `id`) at `depth`: its children are the
/// pending items whose parent id is `id`, in order, each taken out of
/// `slots` and built the same way. Items taken out once are not found
/// again, so each item lands in the tree at most once.
fn build_node<M>(
    item: M,
    id: Value,
    depth: usize,
    slots: &mut Vec<Option<(M, Value)>>,
    parents: &Vec<Value>,
) -> (r: HierarchyNode<M>)
    requires
        old(slots)@.len() == parents@.len(),
        depth + filled(old(slots)@) <= usize::MAX,
    ensures
        final(slots)@.len() == old(slots)@.len(),
        filled(final(slots)@) <= filled(old(slots)@),
        node_count(r) + filled(final(slots)@) == 1 + filled(old(slots)@),
        r.item == item,
        depths_from(r, depth as nat),
    decreases filled(old(slots)@),
{
    let mut kids: Vec<(M, Value)> = Vec::new();
    let ghost start = filled(slots@);
    let mut i: usize = 0;
    while i < slots.len()
        invariant
            i <= slots@.len(),
            slots@.len() == parents@.len(),
            filled(slots@) + kids@.len() == start,
        decreases slots@.len() - i,
    {
        if slots[i].is_some() && same_value(&parents[i], &id) {
            let mut taken: Option<(M, Value)> = None;
            let ghost before = slots@;
            std::mem::swap(&mut taken, &mut slots[i]);
            proof {
                assert(slots@ == before.update(i as int, None));
                lemma_filled_take(before, i as int);
            }
            match taken {
                Some(k) => kids.push(k),
                None => {},
            }
        }
        i = i + 1;
    }
    let ghost after_take = filled(slots@);
    let ghost k = kids@.len();
    let mut children: Vec<HierarchyNode<M>> = Vec::new();
    let mut rest = kids;
    let mut rev: Vec<(M, Value)> = Vec::new();
    while rest.len() > 0
        invariant
            rev@.len() + rest@.len() == k,
        decreases rest@.len(),
    {
        let k = rest.pop().unwrap();
        rev.push(k);
    }
    while rev.len() > 0
        invariant
            slots@.len() == parents@.len(),
            start == filled(old(slots)@),
            after_take + k == start,
            rev@.len() <= k,
            filled(slots@) <= after_take,
            children_count(children@) + filled(slots@) == (k - rev@.len()) + after_take,
            depth + start <= usize::MAX,
            children_depths(children@, depth as nat + 1),
        decreases rev@.len(),
    {
        let (child, child_id) = rev.pop().unwrap();
        let ghost s0 = filled(slots@);
        let ghost c0 = children@;
        let node = build_node(child, child_id, depth + 1, slots, parents);
        children.push(node);
        proof {
            assert(children@.drop_last() =~= c0);
        }
    }
    let r = HierarchyNode { item, depth, children };
    r
}

impl<M> HierarchyNode<M> {
    /// Rebuilds the tree under `root`, whose id is `root_id`, from its
    /// descendants, each given with its id and its parent's id. A node's
    /// children are the descendants whose parent id is its id, in the order
    /// given; descendants with no parent id, or whose parent is not reached,
    /// are left out, and no descendant appears twice.
    pub fn from_flat(root: M, root_id: Value, descendants: Vec<(M, Value, Option<Value>)>) -> (r: Self)
        ensures
            r.item == root,
            depths_from(r, 0),
            node_count(r) <= 1 + descendants@.len(),
    {
        let mut rest = descendants;
        let mut rev: Vec<(M, Value, Option<Value>)> = Vec::new();
        let ghost n = rest@.len();
        while rest.len() > 0
            invariant
                rev@.len() + rest@.len() == n,
            decreases rest@.len(),
        {
            let d = rest.pop().unwrap();
            rev.push(d);
        }
        let mut slots: Vec<Option<(M, Value)>> = Vec::new();
        let mut parents: Vec<Value> = Vec::new();
        while rev.len() > 0
            invariant
                slots@.len() == parents@.len(),
                slots@.len() + rev@.len() <= n,
                forall|i: int| 0 <= i < slots@.len() ==> (#[trigger] slots@[i]) is Some,
            decreases rev@.len(),
        {
            let (item, id, parent) = rev.pop().unwrap();
            match parent {
                Some(p) => {
                    slots.push(Some((item, id)));
                    parents.push(p);
                },
                None => {},
            }
        }
        let count = slots.len();
        proof {
            lemma_filled_all(slots@);
            assert(filled(slots@) == count);
        }
        let r = build_node(root, root_id, 0, &mut slots, &parents);
        r
    }
}


/// The part of a hierarchy query's text before its join condition: the
/// anchor row selected by primary key, then the recursive step's columns.
pub open spec fn hierarchy_head(d: Dialect, table: Seq<char>, pk: Seq<char>, cols: Seq<Seq<char>>) -> Seq<char> {
    "WITH RECURSIVE __hierarchy AS (\n  SELECT "@ + hierarchy_cols(d, cols) + ", 0 AS __depth FROM "@
        + quoted(d, table) + " WHERE "@ + quoted(d, pk) + " = "@ + placeholder_text(d, 0)
        + "\n  UNION ALL\n  SELECT "@ + hierarchy_child_cols(d, cols)
        + ", h.__depth + 1 AS __depth FROM "@ + quoted(d, table) + " c JOIN __hierarchy h ON "@
}

/// A hierarchy query, in one statement: after the anchor row (its one
/// bind), the recursive step joins a child `c` to a row `h` already found
/// (descendants on `c.fk = h.pk`, ancestors on `c.pk = h.fk`), guarded by
/// `h.__depth < max_depth` when a maximum depth is set, else by
/// `h.__depth < 100` with cycle protection, else by `1 = 1`; the rows come
/// back ordered by depth only when an order was asked for.
pub proof fn law_hierarchy_query(
    d: Dialect,
    table: Seq<char>,
    pk: Seq<char>,
    fk: Seq<char>,
    cols: Seq<Seq<char>>,
    direction: HierarchyDirection,
    max_depth: Option<usize>,
    order: Option<SortOrder>,
    cycle_protection: bool,
)
    ensures
        hierarchy_text(d, table, pk, fk, cols, direction, max_depth, order, cycle_protection) == hierarchy_head(
            d,
            table,
            pk,
            cols,
        ) + hierarchy_join(d, direction, pk, fk) + " WHERE "@ + hierarchy_depth_cond(max_depth, cycle_protection)
            + "\n)\nSELECT "@ + hierarchy_cols(d, cols) + " FROM __hierarchy"@ + hierarchy_order(order),
        direction is Descendants ==> hierarchy_join(d, direction, pk, fk) == "c."@ + quoted(d, fk) + " = h."@
            + quoted(d, pk),
        direction is Ancestors ==> hierarchy_join(d, direction, pk, fk) == "c."@ + quoted(d, pk) + " = h."@
            + quoted(d, fk),
        max_depth matches Some(m) ==> hierarchy_depth_cond(max_depth, cycle_protection) == "h.__depth < "@
            + decimal(m as nat),
        max_depth is None && cycle_protection ==> hierarchy_depth_cond(max_depth, cycle_protection)
            == "h.__depth < 100"@,
        max_depth is None && !cycle_protection ==> hierarchy_depth_cond(max_depth, cycle_protection) == "1 = 1"@,
        order is None ==> hierarchy_order(order) == Seq::<char>::empty(),
        order == Some(SortOrder::Asc) ==> hierarchy_order(order) == " ORDER BY __depth ASC"@,
        order == Some(SortOrder::Desc) ==> hierarchy_order(order) == " ORDER BY __depth DESC"@,
{
}

/// A subtree counts itself and its children's subtrees, and its pre-order
/// flattening lists each of its nodes once: `count()` is `1 +` the sum of
/// the children's `count()`, and equals `flatten().len()`.
pub proof fn law_count_matches_flatten<M>(n: HierarchyNode<M>)
    ensures
        node_count(n) == 1 + children_count(n.children@),
        preorder(n).len() == node_count(n),
{
    lemma_preorder_len(n);
}

} // verus!
