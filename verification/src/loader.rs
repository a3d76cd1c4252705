//! Batched relation loading: parent keys are deduplicated and split into
//! chunks that fit the dialect's bind budget, and the fetched children are
//! handed back to their parents by key.
//!
//! Keys are compared by content ([`Value`] views). A child belongs to every
//! parent whose key matches its own; a parent receives its children in the
//! order they were fetched.
use vstd::prelude::*;

use crate::compile::{
    cond_clause, copy_children, copy_node, filter_sql, lemma_list_sql_alike, list_sql, partitioned_text, select,
    select_partitioned, select_text, CompiledSql,
};
use crate::dialect::Dialect;
use crate::filter::{flat_part, CmpOp, FilterNode};
use crate::model::Model;
use crate::order::OrderBy;
use crate::query::soft_delete_cond;
use crate::value::{copy_value, lemma_views_of_index, same_value, views_of, Value, ValueView};
use std::marker::PhantomData;

verus! {

/// The distinct values of `s`, each where it first occurs.
pub open spec fn first_seen(s: Seq<ValueView>) -> Seq<ValueView>
    decreases s.len(),
{
    if s.len() == 0 {
        Seq::empty()
    } else {
        let p = first_seen(s.drop_last());
        if p.contains(s.last()) {
            p
        } else {
            p.push(s.last())
        }
    }
}

/// The positions in `s` that hold `key`, in increasing order.
pub open spec fn positions_of(s: Seq<ValueView>, key: ValueView) -> Seq<int>
    decreases s.len(),
{
    if s.len() == 0 {
        Seq::empty()
    } else {
        let p = positions_of(s.drop_last(), key);
        if s.last() == key {
            p.push(s.len() - 1)
        } else {
            p
        }
    }
}

/// The number of join rows `(owners[j], targets[j])` that link `owner` to
/// `target`.
pub open spec fn link_count(
    owners: Seq<ValueView>,
    targets: Seq<ValueView>,
    owner: ValueView,
    target: ValueView,
) -> nat
    decreases owners.len(),
{
    if owners.len() == 0 || targets.len() == 0 {
        0
    } else {
        link_count(owners.drop_last(), targets.drop_last(), owner, target) + if owners.last() == owner
            && targets.last() == target {
            1nat
        } else {
            0nat
        }
    }
}

/// The positions of `children` that a parent with key `owner` receives
/// through the join rows: in child order, each once per join row that links
/// the parent to the child.
pub open spec fn linked_children(
    owners: Seq<ValueView>,
    targets: Seq<ValueView>,
    children: Seq<ValueView>,
    owner: ValueView,
) -> Seq<int>
    decreases children.len(),
{
    if children.len() == 0 {
        Seq::empty()
    } else {
        linked_children(owners, targets, children.drop_last(), owner) + Seq::new(
            link_count(owners, targets, owner, children.last()),
            |k: int| children.len() - 1,
        )
    }
}

/// `s` cut to at most `limit` entries.
pub open spec fn at_most(s: Seq<int>, limit: Option<u64>) -> Seq<int> {
    match limit {
        Some(n) => if s.len() > n {
            s.take(n as int)
        } else {
            s
        },
        None => s,
    }
}

/// The positions a vector of indices names.
pub open spec fn index_seq(v: Seq<usize>) -> Seq<int> {
    v.map_values(|j: usize| j as int)
}

/// Deduplication keeps exactly the values of its input, each once.
pub proof fn law_first_seen(s: Seq<ValueView>)
    ensures
        forall|x: ValueView| #[trigger] first_seen(s).contains(x) <==> s.contains(x),
        forall|i: int, j: int|
            0 <= i < j < first_seen(s).len() ==> #[trigger] first_seen(s)[i] != #[trigger] first_seen(
                s,
            )[j],
    decreases s.len(),
{
    if s.len() > 0 {
        let d = s.drop_last();
        law_first_seen(d);
        let p = first_seen(d);
        assert forall|x: ValueView| #[trigger] first_seen(s).contains(x) <==> s.contains(x) by {
            let f = first_seen(s);
            if p.contains(x) {
                let m = choose|m: int| 0 <= m < p.len() && p[m] == x;
                if !p.contains(s.last()) {
                    assert(p.push(s.last())[m] == x);
                }
                assert(f.contains(x));
                let k = choose|k: int| 0 <= k < d.len() && d[k] == x;
                assert(s[k] == x);
            } else {
                if s.contains(x) {
                    let k = choose|k: int| 0 <= k < s.len() && s[k] == x;
                    if k < s.len() - 1 {
                        assert(d[k] == x);
                        assert(false);
                    }
                    assert(x == s.last());
                    assert(p.push(s.last())[p.len() as int] == x);
                }
                if f.contains(x) {
                    let k = choose|k: int| 0 <= k < f.len() && f[k] == x;
                    assert(f == p.push(s.last()));
                    if k < p.len() {
                        assert(p[k] == x);
                    }
                    assert(s[s.len() - 1] == x);
                }
            }
        }
        if !p.contains(s.last()) {
            assert forall|i: int, j: int|
                0 <= i < j < first_seen(s).len() implies #[trigger] first_seen(s)[i]
                != #[trigger] first_seen(s)[j] by {
                if j == p.len() {
                    assert(p[i] == first_seen(s)[i]);
                    if p[i] == s.last() {
                        assert(p.contains(s.last()));
                    }
                } else {
                    assert(p[i] == first_seen(s)[i] && p[j] == first_seen(s)[j]);
                }
            }
        }
    }
}

/// A parent's group holds exactly the positions of the children carrying its
/// key, in increasing order.
pub proof fn law_positions_of(s: Seq<ValueView>, key: ValueView)
    ensures
        forall|j: int| #[trigger] positions_of(s, key).contains(j) <==> (0 <= j < s.len() && s[j]
            == key),
        forall|a: int, b: int|
            0 <= a < b < positions_of(s, key).len() ==> #[trigger] positions_of(s, key)[a]
                < #[trigger] positions_of(s, key)[b],
        forall|a: int|
            0 <= a < positions_of(s, key).len() ==> 0 <= #[trigger] positions_of(s, key)[a] < s.len(),
    decreases s.len(),
{
    if s.len() > 0 {
        let d = s.drop_last();
        law_positions_of(d, key);
        let p = positions_of(d, key);
        assert forall|j: int| #[trigger] positions_of(s, key).contains(j) <==> (0 <= j < s.len()
            && s[j] == key) by {
            if 0 <= j < s.len() && s[j] == key {
                if j < s.len() - 1 {
                    assert(d[j] == key);
                    assert(p.contains(j));
                    let k = choose|k: int| 0 <= k < p.len() && p[k] == j;
                    if s.last() == key {
                        assert(p.push(s.len() - 1)[k] == j);
                    }
                } else {
                    assert(p.push(s.len() - 1)[p.len() as int] == j);
                }
            }
            if positions_of(s, key).contains(j) {
                let k = choose|k: int|
                    0 <= k < positions_of(s, key).len() && positions_of(s, key)[k] == j;
                if k < p.len() {
                    assert(p[k] == j);
                    assert(p.contains(j));
                    assert(d[j] == s[j]);
                }
            }
        }
    }
}

/// The number of keys one `IN (...)` query may carry, leaving room for the
/// binds of the relation's own filter.
pub open spec fn chunk_len(max_query_params: u32) -> nat {
    if max_query_params > 10 {
        (max_query_params - 10) as nat
    } else {
        1
    }
}

/// Whether `v` holds a value with the content of `x`.
pub fn contains_value(v: &Vec<Value>, x: &Value) -> (r: bool)
    ensures
        r == views_of(v@).contains(x@),
{
    proof {
        lemma_views_of_index(v@);
    }
    let mut i: usize = 0;
    while i < v.len()
        invariant
            i <= v@.len(),
            views_of(v@).len() == v@.len(),
            forall|k: int| 0 <= k < v@.len() ==> #[trigger] views_of(v@)[k] == v@[k]@,
            forall|k: int| 0 <= k < i ==> v@[k]@ != x@,
        decreases v@.len() - i,
    {
        if same_value(&v[i], x) {
            proof {
                assert(views_of(v@)[i as int] == x@);
            }
            return true;
        }
        i = i + 1;
    }
    proof {
        if views_of(v@).contains(x@) {
            let k = choose|k: int| 0 <= k < views_of(v@).len() && views_of(v@)[k] == x@;
            assert(v@[k]@ == x@);
        }
    }
    false
}

/// The distinct keys of `keys` in first-seen order.
pub fn dedup(keys: &[Value]) -> (r: Vec<Value>)
    ensures
        views_of(r@) == first_seen(views_of(keys@)),
{
    proof {
        lemma_views_of_index(keys@);
    }
    let mut out: Vec<Value> = Vec::new();
    let mut i: usize = 0;
    proof {
        assert(views_of(keys@).take(0) =~= Seq::<ValueView>::empty());
    }
    while i < keys.len()
        invariant
            i <= keys@.len(),
            views_of(keys@).len() == keys@.len(),
            forall|k: int| 0 <= k < keys@.len() ==> #[trigger] views_of(keys@)[k] == keys@[k]@,
            views_of(out@) == first_seen(views_of(keys@).take(i as int)),
        decreases keys@.len() - i,
    {
        let ghost kv = views_of(keys@);
        proof {
            assert(kv.take(i + 1).drop_last() =~= kv.take(i as int));
            assert(kv.take(i + 1).last() == keys@[i as int]@);
        }
        if !contains_value(&out, &keys[i]) {
            let c = copy_value(&keys[i]);
            let ghost before = out@;
            out.push(c);
            proof {
                assert(out@.drop_last() =~= before);
            }
        }
        i = i + 1;
    }
    proof {
        assert(views_of(keys@).take(keys@.len() as int) =~= views_of(keys@));
    }
    out
}

/// The number of keys one `IN (...)` query may carry.
pub fn chunk_size(max_query_params: u32) -> (r: usize)
    ensures
        r == chunk_len(max_query_params),
{
    let n = (max_query_params as usize).saturating_sub(10);
    if n == 0 {
        1
    } else {
        n
    }
}

/// Splits `0..len` into consecutive ranges of `size` positions; the last
/// range may be shorter.
pub fn chunk_ranges(len: usize, size: usize) -> (r: Vec<(usize, usize)>)
    requires
        size > 0,
    ensures
        len == 0 <==> r@.len() == 0,
        r@.len() > 0 ==> r@[0].0 == 0 && r@.last().1 == len,
        forall|k: int| 0 <= k < r@.len() ==> #[trigger] r@[k].0 < r@[k].1 <= r@[k].0 + size,
        forall|k: int| 0 <= k < r@.len() - 1 ==> #[trigger] r@[k].1 == r@[k + 1].0 && r@[k].1
            == r@[k].0 + size,
{
    let mut out: Vec<(usize, usize)> = Vec::new();
    let mut start: usize = 0;
    while start < len
        invariant
            size > 0,
            start <= len,
            out@.len() == 0 <==> start == 0,
            out@.len() > 0 ==> out@[0].0 == 0 && out@.last().1 == start,
            forall|k: int| 0 <= k < out@.len() ==> #[trigger] out@[k].0 < out@[k].1 <= out@[k].0 + size,
            forall|k: int|
                0 <= k < out@.len() - 1 ==> #[trigger] out@[k].1 == out@[k + 1].0 && out@[k].1
                    == out@[k].0 + size,
            out@.len() > 0 ==> out@.last().1 == out@.last().0 + size || out@.last().1 == len,
        decreases len - start,
    {
        let end = if len - start > size {
            start + size
        } else {
            len
        };
        let ghost before = out@;
        out.push((start, end));
        proof {
            assert forall|k: int| 0 <= k < out@.len() - 1 implies #[trigger] out@[k].1 == out@[k
                + 1].0 && out@[k].1 == out@[k].0 + size by {
                if k < before.len() - 1 {
                    assert(out@[k] == before[k] && out@[k + 1] == before[k + 1]);
                } else {
                    assert(out@[k] == before.last());
                }
            }
        }
        start = end;
    }
    out
}

/// The positions in `child_keys` holding `key`, in order.
pub fn positions(child_keys: &[Value], key: &Value) -> (r: Vec<usize>)
    ensures
        index_seq(r@) == positions_of(views_of(child_keys@), key@),
{
    proof {
        lemma_views_of_index(child_keys@);
    }
    let ghost cv = views_of(child_keys@);
    let mut out: Vec<usize> = Vec::new();
    let mut j: usize = 0;
    proof {
        assert(cv.take(0) =~= Seq::<ValueView>::empty());
        assert(index_seq(out@) =~= Seq::<int>::empty());
    }
    while j < child_keys.len()
        invariant
            j <= child_keys@.len(),
            cv == views_of(child_keys@),
            cv.len() == child_keys@.len(),
            forall|k: int| 0 <= k < child_keys@.len() ==> #[trigger] cv[k] == child_keys@[k]@,
            index_seq(out@) == positions_of(cv.take(j as int), key@),
        decreases child_keys@.len() - j,
    {
        proof {
            assert(cv.take(j + 1).drop_last() =~= cv.take(j as int));
            assert(cv.take(j + 1).last() == child_keys@[j as int]@);
        }
        if same_value(&child_keys[j], key) {
            let ghost before = out@;
            out.push(j);
            proof {
                assert(index_seq(out@) =~= index_seq(before).push(j as int));
            }
        }
        j = j + 1;
    }
    proof {
        assert(cv.take(child_keys@.len() as int) =~= cv);
    }
    out
}

/// For each parent key, the positions of the children with that key, in
/// fetch order (one-to-many relations).
pub fn group_children(parent_keys: &[Value], child_keys: &[Value]) -> (r: Vec<Vec<usize>>)
    ensures
        r@.len() == parent_keys@.len(),
        forall|i: int|
            0 <= i < r@.len() ==> index_seq(#[trigger] r@[i]@) == positions_of(
                views_of(child_keys@),
                parent_keys@[i]@,
            ),
{
    let mut out: Vec<Vec<usize>> = Vec::new();
    let mut i: usize = 0;
    while i < parent_keys.len()
        invariant
            i <= parent_keys@.len(),
            out@.len() == i,
            forall|k: int|
                0 <= k < i ==> index_seq(#[trigger] out@[k]@) == positions_of(
                    views_of(child_keys@),
                    parent_keys@[k]@,
                ),
        decreases parent_keys@.len() - i,
    {
        let p = positions(child_keys, &parent_keys[i]);
        out.push(p);
        i = i + 1;
    }
    out
}

/// For each parent key, the position of the first child with that key, if
/// any (one-to-one and many-to-one relations).
pub fn first_children(parent_keys: &[Value], child_keys: &[Value]) -> (r: Vec<Option<usize>>)
    ensures
        r@.len() == parent_keys@.len(),
        forall|i: int|
            0 <= i < r@.len() ==> match #[trigger] r@[i] {
                Some(j) => positions_of(views_of(child_keys@), parent_keys@[i]@).len() > 0
                    && j == positions_of(views_of(child_keys@), parent_keys@[i]@)[0],
                None => positions_of(views_of(child_keys@), parent_keys@[i]@).len() == 0,
            },
{
    let mut out: Vec<Option<usize>> = Vec::new();
    let mut i: usize = 0;
    while i < parent_keys.len()
        invariant
            i <= parent_keys@.len(),
            out@.len() == i,
            forall|k: int|
                0 <= k < i ==> match #[trigger] out@[k] {
                    Some(j) => positions_of(views_of(child_keys@), parent_keys@[k]@).len() > 0
                        && j == positions_of(views_of(child_keys@), parent_keys@[k]@)[0],
                    None => positions_of(views_of(child_keys@), parent_keys@[k]@).len() == 0,
                },
        decreases parent_keys@.len() - i,
    {
        let p = positions(child_keys, &parent_keys[i]);
        proof {
            assert(p@.len() == index_seq(p@).len());
        }
        if p.len() > 0 {
            proof {
                assert(index_seq(p@)[0] == p@[0] as int);
            }
            out.push(Some(p[0]));
        } else {
            out.push(None);
        }
        i = i + 1;
    }
    out
}

/// The number of join rows linking `owner` to `target`.
pub fn count_links(owners: &[Value], targets: &[Value], owner: &Value, target: &Value) -> (r: usize)
    requires
        owners@.len() == targets@.len(),
    ensures
        r == link_count(views_of(owners@), views_of(targets@), owner@, target@),
{
    proof {
        lemma_views_of_index(owners@);
        lemma_views_of_index(targets@);
    }
    let ghost ov = views_of(owners@);
    let ghost tv = views_of(targets@);
    let mut n: usize = 0;
    let mut j: usize = 0;
    while j < owners.len()
        invariant
            j <= owners@.len(),
            owners@.len() == targets@.len(),
            ov == views_of(owners@),
            tv == views_of(targets@),
            ov.len() == owners@.len(),
            tv.len() == targets@.len(),
            forall|k: int| 0 <= k < owners@.len() ==> #[trigger] ov[k] == owners@[k]@,
            forall|k: int| 0 <= k < targets@.len() ==> #[trigger] tv[k] == targets@[k]@,
            n == link_count(ov.take(j as int), tv.take(j as int), owner@, target@),
            n <= j,
        decreases owners@.len() - j,
    {
        proof {
            assert(ov.take(j + 1).drop_last() =~= ov.take(j as int));
            assert(tv.take(j + 1).drop_last() =~= tv.take(j as int));
            assert(ov.take(j + 1).last() == owners@[j as int]@);
            assert(tv.take(j + 1).last() == targets@[j as int]@);
        }
        if same_value(&owners[j], owner) && same_value(&targets[j], target) {
            n = n + 1;
        }
        j = j + 1;
    }
    proof {
        assert(ov.take(owners@.len() as int) =~= ov);
        assert(tv.take(targets@.len() as int) =~= tv);
    }
    n
}

/// For each parent key, the positions of the children it reaches through
/// the join rows `(join_owners[j], join_targets[j])`: in child order, each
/// once per linking join row, cut to `limit` (many-to-many relations).
pub fn group_through(
    parent_keys: &[Value],
    join_owners: &[Value],
    join_targets: &[Value],
    child_keys: &[Value],
    limit: Option<u64>,
) -> (r: Vec<Vec<usize>>)
    requires
        join_owners@.len() == join_targets@.len(),
    ensures
        r@.len() == parent_keys@.len(),
        forall|i: int|
            0 <= i < r@.len() ==> index_seq(#[trigger] r@[i]@) == at_most(
                linked_children(
                    views_of(join_owners@),
                    views_of(join_targets@),
                    views_of(child_keys@),
                    parent_keys@[i]@,
                ),
                limit,
            ),
{
    proof {
        lemma_views_of_index(child_keys@);
    }
    let ghost ov = views_of(join_owners@);
    let ghost tv = views_of(join_targets@);
    let ghost cv = views_of(child_keys@);
    let mut out: Vec<Vec<usize>> = Vec::new();
    let mut i: usize = 0;
    while i < parent_keys.len()
        invariant
            i <= parent_keys@.len(),
            join_owners@.len() == join_targets@.len(),
            ov == views_of(join_owners@),
            tv == views_of(join_targets@),
            cv == views_of(child_keys@),
            cv.len() == child_keys@.len(),
            forall|k: int| 0 <= k < child_keys@.len() ==> #[trigger] cv[k] == child_keys@[k]@,
            out@.len() == i,
            forall|k: int|
                0 <= k < i ==> index_seq(#[trigger] out@[k]@) == at_most(
                    linked_children(ov, tv, cv, parent_keys@[k]@),
                    limit,
                ),
        decreases parent_keys@.len() - i,
    {
        let ghost pk = parent_keys@[i as int]@;
        let mut bucket: Vec<usize> = Vec::new();
        let mut c: usize = 0;
        proof {
            assert(cv.take(0) =~= Seq::<ValueView>::empty());
            assert(index_seq(bucket@) =~= Seq::<int>::empty());
        }
        while c < child_keys.len()
            invariant
                c <= child_keys@.len(),
                i < parent_keys@.len(),
                pk == parent_keys@[i as int]@,
                join_owners@.len() == join_targets@.len(),
                ov == views_of(join_owners@),
                tv == views_of(join_targets@),
                cv == views_of(child_keys@),
                cv.len() == child_keys@.len(),
                forall|k: int| 0 <= k < child_keys@.len() ==> #[trigger] cv[k] == child_keys@[k]@,
                index_seq(bucket@) == linked_children(ov, tv, cv.take(c as int), pk),
            decreases child_keys@.len() - c,
        {
            let n = count_links(join_owners, join_targets, &parent_keys[i], &child_keys[c]);
            let ghost before = index_seq(bucket@);
            let mut t: usize = 0;
            while t < n
                invariant
                    t <= n,
                    index_seq(bucket@) == before + Seq::new(t as nat, |k: int| c as int),
                decreases n - t,
            {
                let ghost b0 = index_seq(bucket@);
                bucket.push(c);
                proof {
                    assert(index_seq(bucket@) =~= b0.push(c as int));
                    assert(before + Seq::new((t + 1) as nat, |k: int| c as int) =~= (before
                        + Seq::new(t as nat, |k: int| c as int)).push(c as int));
                }
                t = t + 1;
            }
            proof {
                let s = cv.take(c + 1);
                assert(s.drop_last() =~= cv.take(c as int));
                assert(s.last() == child_keys@[c as int]@);
                assert(Seq::new(n as nat, |k: int| c as int) =~= Seq::new(
                    link_count(ov, tv, pk, s.last()),
                    |k: int| s.len() - 1,
                ));
            }
            c = c + 1;
        }
        proof {
            assert(cv.take(child_keys@.len() as int) =~= cv);
        }
        match limit {
            Some(n) => {
                if bucket.len() as u64 > n {
                    let ghost whole = index_seq(bucket@);
                    bucket.truncate(n as usize);
                    proof {
                        assert(index_seq(bucket@) =~= whole.take(n as int));
                    }
                }
            },
            None => {},
        }
        out.push(bucket);
        i = i + 1;
    }
    out
}

/// Whether `node` is the empty conjunction, which stands for no filter.
pub fn is_unfiltered(node: &FilterNode) -> (r: bool)
    ensures
        r == crate::filter::is_trivial(*node),
{
    match node {
        FilterNode::And(v) => v.len() == 0,
        _ => false,
    }
}

/// Whether a one-to-many or one-to-one relation load may read the whole child
/// table instead of an `IN` list: the parents are the whole parent table,
/// the fast path is enabled (`full_table_limit > 0`), and the relation has no
/// filter, order or per-parent limit. The loader still counts the child
/// table first and uses the fast path only up to `full_table_limit` rows.
pub fn full_table_fast_path(
    full_table: bool,
    full_table_limit: u64,
    filter: &FilterNode,
    order_len: usize,
    limit: Option<u64>,
) -> (r: bool)
    ensures
        r == (full_table && full_table_limit > 0 && crate::filter::is_trivial(*filter) && order_len
            == 0 && limit is None),
{
    full_table && full_table_limit > 0 && is_unfiltered(filter) && order_len == 0 && limit.is_none()
}

/// Whether the child rows of a relation load are themselves a whole table, so
/// that nested relation loads may take the fast path too.
pub fn nested_full_table(full_table: bool, filter: &FilterNode, order_len: usize, limit: Option<u64>) -> (r: bool)
    ensures
        r == (full_table && crate::filter::is_trivial(*filter) && order_len == 0 && limit is None),
{
    full_table && is_unfiltered(filter) && order_len == 0 && limit.is_none()
}

/// `f` is a conjunction whose children compile, one for one, as the nodes
/// of `s`.
pub open spec fn conj_like(f: FilterNode, s: Seq<FilterNode>) -> bool {
    &&& f matches FilterNode::And(v)
    &&& f->And_0@.len() == s.len()
    &&& forall|j: int, d: Dialect, k: nat|
        0 <= j < s.len() ==> #[trigger] filter_sql(d, f->And_0@[j], k) == filter_sql(d, s[j], k)
}

/// A conjunction of the nodes of `s`, up to how they compile.
pub open spec fn conj_node(s: Seq<FilterNode>) -> FilterNode {
    choose|f: FilterNode| conj_like(f, s)
}

/// `f` is `column IN (keys)` on `table`, for keys with the contents `keys`.
pub open spec fn is_in_node(f: FilterNode, table: &'static str, column: &'static str, keys: Seq<ValueView>) -> bool {
    f matches FilterNode::In { table: t, column: c, values, negated } && t == table && c == column
        && views_of(values@) == keys && !negated
}

/// `column IN (keys)` on `table`, for keys with the contents `keys`.
pub open spec fn in_node_for(table: &'static str, column: &'static str, keys: Seq<ValueView>) -> FilterNode {
    choose|f: FilterNode| #[trigger] is_in_node(f, table, column, keys)
}

/// `f` is `column = key` on `table`, for a key with the content `key`.
pub open spec fn is_eq_node(f: FilterNode, table: &'static str, column: &'static str, key: ValueView) -> bool {
    f matches FilterNode::Cmp { table: t, column: c, op, value } && t == table && c == column && op is Eq
        && value@ == key
}

/// `column = key` on `table`, for a key with the content `key`.
pub open spec fn eq_node_for(table: &'static str, column: &'static str, key: ValueView) -> FilterNode {
    choose|f: FilterNode| #[trigger] is_eq_node(f, table, column, key)
}

/// The soft-delete condition a plain select on `C` adds, as a list.
pub open spec fn soft_tail<C: Model>() -> Seq<FilterNode> {
    match soft_delete_cond::<C>(false, false) {
        Some(c) => seq![c],
        None => Seq::empty(),
    }
}

/// Two conjunctions like the same list compile alike.
pub proof fn lemma_conj_like_unique(f1: FilterNode, f2: FilterNode, s: Seq<FilterNode>)
    requires
        conj_like(f1, s),
        conj_like(f2, s),
    ensures
        forall|d: Dialect, kw: Seq<char>, k: nat| #[trigger] cond_clause(d, kw, f1, k) == cond_clause(d, kw, f2, k),
{
    let v1 = f1->And_0@;
    let v2 = f2->And_0@;
    assert forall|j: int, d: Dialect, k: nat| 0 <= j < v1.len() implies #[trigger] filter_sql(d, v1[j], k)
        == filter_sql(d, v2[j], k) by {
        assert(filter_sql(d, v1[j], k) == filter_sql(d, s[j], k));
        assert(filter_sql(d, v2[j], k) == filter_sql(d, s[j], k));
    }
    lemma_list_sql_alike(v1, v2);
    assert forall|d: Dialect, kw: Seq<char>, k: nat| #[trigger] cond_clause(d, kw, f1, k) == cond_clause(d, kw, f2, k) by {
        if v1.len() == 1 {
            assert(filter_sql(d, v1[0], k) == filter_sql(d, v2[0], k));
        } else if v1.len() > 1 {
            assert(list_sql(d, v1, " AND "@, k) == list_sql(d, v2, " AND "@, k));
        }
    }
}

/// The conjunction of `head`, the flattened children of `filter`, and
/// `tail`, in that order.
fn conj_with(head: Vec<FilterNode>, filter: &FilterNode, tail: Vec<FilterNode>) -> (r: FilterNode)
    ensures
        conj_like(r, head@ + flat_part(*filter, true) + tail@),
{
    let ghost s = head@ + flat_part(*filter, true) + tail@;
    let mut v = head;
    let ghost h = v@;
    let mid: Vec<FilterNode> = match filter {
        FilterNode::And(w) => copy_children(w, Ghost(*filter)),
        _ => {
            let mut m: Vec<FilterNode> = Vec::new();
            m.push(copy_node(filter));
            m
        },
    };
    let ghost mv = mid@;
    let mut mid = mid;
    v.append(&mut mid);
    let ghost hm = v@;
    let mut tail = tail;
    let ghost tv = tail@;
    v.append(&mut tail);
    proof {
        assert(mv.len() == flat_part(*filter, true).len());
        assert forall|j: int, d: Dialect, k: nat| 0 <= j < s.len() implies #[trigger] filter_sql(d, v@[j], k)
            == filter_sql(d, s[j], k) by {
            if j < h.len() {
                assert(v@[j] == h[j]);
                assert(s[j] == h[j]);
            } else if j < h.len() + mv.len() {
                assert(v@[j] == mv[j - h.len()]);
                assert(s[j] == flat_part(*filter, true)[j - h.len()]);
                assert(filter_sql(d, mv[j - h.len()], k) == filter_sql(d, flat_part(*filter, true)[j - h.len()], k));
            } else {
                assert(v@[j] == tv[j - h.len() - mv.len()]);
                assert(s[j] == tv[j - h.len() - mv.len()]);
            }
        }
    }
    FilterNode::And(v)
}

/// The soft-delete condition of `C`, if it has one, as a list.
fn soft_tail_nodes<C: Model>() -> (r: Vec<FilterNode>)
    ensures
        r@ == soft_tail::<C>(),
{
    let mut v: Vec<FilterNode> = Vec::new();
    match C::DELETED_AT_COLUMN {
        Some(col) => {
            v.push(FilterNode::Null { table: C::TABLE, column: col, negated: false });
            proof {
                assert(v@ =~= soft_tail::<C>());
            }
        },
        None => {
            proof {
                assert(v@ =~= soft_tail::<C>());
            }
        },
    }
    v
}

/// The `IN` node on `C`'s `key_col` for copies of `keys`.
fn in_node<C: Model>(key_col: &'static str, keys: &[Value]) -> (r: FilterNode)
    ensures
        forall|d: Dialect, k: nat| #[trigger] filter_sql(d, r, k) == filter_sql(d, in_node_for(C::TABLE, key_col, views_of(keys@)), k),
{
    let mut vals: Vec<Value> = Vec::new();
    let mut i: usize = 0;
    while i < keys.len()
        invariant
            i <= keys@.len(),
            views_of(vals@) == views_of(keys@.take(i as int)),
        decreases keys@.len() - i,
    {
        let ghost before = vals@;
        vals.push(copy_value(&keys[i]));
        proof {
            assert(keys@.take(i + 1).drop_last() =~= keys@.take(i as int));
            assert(keys@.take(i + 1).last() == keys@[i as int]);
            assert(vals@.drop_last() =~= before);
        }
        i = i + 1;
    }
    proof {
        assert(keys@.take(keys@.len() as int) =~= keys@);
    }
    let r = FilterNode::In { table: C::TABLE, column: key_col, values: vals, negated: false };
    proof {
        let g = in_node_for(C::TABLE, key_col, views_of(keys@));
        assert(is_in_node(r, C::TABLE, key_col, views_of(keys@)));
        lemma_views_of_index(vals@);
        lemma_views_of_index(g->In_values@);
        assert forall|d: Dialect, k: nat| #[trigger] filter_sql(d, r, k) == filter_sql(d, g, k) by {}
    }
    r
}

/// The statement that reads the children of `C` whose `key_col` is among
/// `keys`, with `filter` and the soft-delete condition of `C`, in `order`.
pub open spec fn keys_in_text<C: Model>(
    d: Dialect,
    key_col: &'static str,
    filter: FilterNode,
    order: Seq<OrderBy<C>>,
    keys: Seq<ValueView>,
) -> (Seq<char>, Seq<ValueView>, bool) {
    select_text::<C>(
        d,
        C::TABLE@,
        Seq::empty(),
        conj_node(seq![in_node_for(C::TABLE, key_col, keys)] + flat_part(filter, true) + soft_tail::<C>()),
        order,
        None,
        None,
        false,
    )
}

/// Compiles the query for the children of `C` whose `key_col` is among
/// `keys`, with the relation's `filter` and `order`.
pub fn keys_in_statement<C: Model>(
    dialect: Dialect,
    key_col: &'static str,
    filter: &FilterNode,
    order: &[OrderBy<C>],
    keys: &[Value],
) -> (r: CompiledSql)
    requires
        keys_in_text::<C>(dialect, key_col, *filter, order@, views_of(keys@)).2,
    ensures
        r.sql@ == keys_in_text::<C>(dialect, key_col, *filter, order@, views_of(keys@)).0,
        views_of(r.binds@) == keys_in_text::<C>(dialect, key_col, *filter, order@, views_of(keys@)).1,
{
    let inn = in_node::<C>(key_col, keys);
    let ghost g = in_node_for(C::TABLE, key_col, views_of(keys@));
    let mut head: Vec<FilterNode> = Vec::new();
    head.push(inn);
    let ghost hv = head@;
    let tail = soft_tail_nodes::<C>();
    let node = conj_with(head, filter, tail);
    proof {
        let s = seq![g] + flat_part(*filter, true) + soft_tail::<C>();
        let s0 = hv + flat_part(*filter, true) + soft_tail::<C>();
        assert forall|j: int, d: Dialect, k: nat| 0 <= j < s.len() implies #[trigger] filter_sql(
            d,
            node->And_0@[j],
            k,
        ) == filter_sql(d, s[j], k) by {
            assert(filter_sql(d, node->And_0@[j], k) == filter_sql(d, s0[j], k));
            if j == 0 {
                assert(s0[0] == inn);
            } else {
                assert(s0[j] == s[j]);
            }
        }
        assert(conj_like(node, s));
        assert(conj_like(conj_node(s), s));
        lemma_conj_like_unique(node, conj_node(s), s);
    }
    select::<C>(dialect, C::TABLE, &[], &node, order, None, None, false)
}

/// The statement that reads, for each key among `keys`, the first `take`
/// children of `C` by `order`, with `filter`: one window query.
pub open spec fn keys_partitioned_text<C: Model>(
    d: Dialect,
    key_col: &'static str,
    filter: FilterNode,
    order: Seq<OrderBy<C>>,
    keys: Seq<ValueView>,
    take: u64,
) -> (Seq<char>, Seq<ValueView>, bool) {
    partitioned_text::<C>(
        d,
        C::TABLE@,
        key_col@,
        conj_node(flat_part(filter, true) + seq![in_node_for(C::TABLE, key_col, keys)]),
        order,
        take,
    )
}

/// Compiles the window query for the first `take` children of `C` of each
/// key among `keys`.
pub fn keys_partitioned_statement<C: Model>(
    dialect: Dialect,
    key_col: &'static str,
    filter: &FilterNode,
    order: &[OrderBy<C>],
    keys: &[Value],
    take: u64,
) -> (r: CompiledSql)
    requires
        keys_partitioned_text::<C>(dialect, key_col, *filter, order@, views_of(keys@), take).2,
    ensures
        r.sql@ == keys_partitioned_text::<C>(dialect, key_col, *filter, order@, views_of(keys@), take).0,
        views_of(r.binds@) == keys_partitioned_text::<C>(dialect, key_col, *filter, order@, views_of(keys@), take).1,
{
    let inn = in_node::<C>(key_col, keys);
    let ghost g = in_node_for(C::TABLE, key_col, views_of(keys@));
    let head: Vec<FilterNode> = Vec::new();
    let mut tail: Vec<FilterNode> = Vec::new();
    tail.push(inn);
    let ghost tv = tail@;
    let node = conj_with(head, filter, tail);
    proof {
        let s = flat_part(*filter, true) + seq![g];
        let s0 = Seq::<FilterNode>::empty() + flat_part(*filter, true) + tv;
        assert forall|j: int, d: Dialect, k: nat| 0 <= j < s.len() implies #[trigger] filter_sql(
            d,
            node->And_0@[j],
            k,
        ) == filter_sql(d, s[j], k) by {
            assert(filter_sql(d, node->And_0@[j], k) == filter_sql(d, s0[j], k));
            if j < flat_part(*filter, true).len() {
                assert(s0[j] == s[j]);
            } else {
                assert(s0[j] == inn);
            }
        }
        assert(conj_like(node, s));
        assert(conj_like(conj_node(s), s));
        lemma_conj_like_unique(node, conj_node(s), s);
    }
    select_partitioned::<C>(dialect, C::TABLE, key_col, &node, order, take)
}

/// The statement that reads the first `take` children of `C` by `order`
/// whose `key_col` is `key`, with `filter` and the soft-delete condition of
/// `C`.
pub open spec fn key_limited_text<C: Model>(
    d: Dialect,
    key_col: &'static str,
    filter: FilterNode,
    order: Seq<OrderBy<C>>,
    key: ValueView,
    take: u64,
) -> (Seq<char>, Seq<ValueView>, bool) {
    select_text::<C>(
        d,
        C::TABLE@,
        Seq::empty(),
        conj_node(seq![eq_node_for(C::TABLE, key_col, key)] + flat_part(filter, true) + soft_tail::<C>()),
        order,
        Some(take),
        None,
        false,
    )
}

/// Compiles the query for the first `take` children of `C` of one key.
pub fn key_limited_statement<C: Model>(
    dialect: Dialect,
    key_col: &'static str,
    filter: &FilterNode,
    order: &[OrderBy<C>],
    key: &Value,
    take: u64,
) -> (r: CompiledSql)
    requires
        key_limited_text::<C>(dialect, key_col, *filter, order@, key@, take).2,
    ensures
        r.sql@ == key_limited_text::<C>(dialect, key_col, *filter, order@, key@, take).0,
        views_of(r.binds@) == key_limited_text::<C>(dialect, key_col, *filter, order@, key@, take).1,
{
    let c = copy_value(key);
    let eq = FilterNode::Cmp { table: C::TABLE, column: key_col, op: CmpOp::Eq, value: c };
    let ghost g = eq_node_for(C::TABLE, key_col, key@);
    proof {
        assert(is_eq_node(eq, C::TABLE, key_col, key@));
        assert forall|d: Dialect, k: nat| #[trigger] filter_sql(d, eq, k) == filter_sql(d, g, k) by {
            assert((c is Null) == (g->Cmp_value is Null)) by {
                if c is Null {
                    assert(g->Cmp_value@ == ValueView::Null);
                }
                if g->Cmp_value is Null {
                    assert(c@ == ValueView::Null);
                }
            }
        }
    }
    let mut head: Vec<FilterNode> = Vec::new();
    head.push(eq);
    let ghost hv = head@;
    let tail = soft_tail_nodes::<C>();
    let node = conj_with(head, filter, tail);
    proof {
        let s = seq![g] + flat_part(*filter, true) + soft_tail::<C>();
        let s0 = hv + flat_part(*filter, true) + soft_tail::<C>();
        assert forall|j: int, d: Dialect, k: nat| 0 <= j < s.len() implies #[trigger] filter_sql(
            d,
            node->And_0@[j],
            k,
        ) == filter_sql(d, s[j], k) by {
            assert(filter_sql(d, node->And_0@[j], k) == filter_sql(d, s0[j], k));
            if j == 0 {
                assert(s0[0] == eq);
            } else {
                assert(s0[j] == s[j]);
            }
        }
        assert(conj_like(node, s));
        assert(conj_like(conj_node(s), s));
        lemma_conj_like_unique(node, conj_node(s), s);
    }
    select::<C>(dialect, C::TABLE, &[], &node, order, Some(take), None, false)
}

/// `c` has the text and binds of `t`.
pub open spec fn compiled_is(c: CompiledSql, t: (Seq<char>, Seq<ValueView>, bool)) -> bool {
    c.sql@ == t.0 && views_of(c.binds@) == t.1
}

/// The statement for one chunk of keys: a window query when a per-parent
/// `limit` is set, else a plain `IN` query.
pub open spec fn chunk_text<C: Model>(
    d: Dialect,
    key_col: &'static str,
    filter: FilterNode,
    order: Seq<OrderBy<C>>,
    limit: Option<u64>,
    chunk: Seq<ValueView>,
) -> (Seq<char>, Seq<ValueView>, bool) {
    match limit {
        Some(n) => keys_partitioned_text::<C>(d, key_col, filter, order, chunk, n),
        None => keys_in_text::<C>(d, key_col, filter, order, chunk),
    }
}

/// The end of the chunk of `size` keys that starts at `start`, among `n`.
pub open spec fn part_end(start: int, size: int, n: int) -> int {
    if start + size < n {
        start + size
    } else {
        n
    }
}

/// Whether the children are read by one query a key: a per-parent `limit`
/// on a dialect without window functions.
pub open spec fn per_key(limit: Option<u64>, window_functions: bool) -> bool {
    limit is Some && !window_functions
}

/// `v` reads the children of the distinct keys `ks`: one query a key when
/// [`per_key`], else one query a chunk of `size` keys, in order.
pub open spec fn fetch_plan<C: Model>(
    d: Dialect,
    key_col: &'static str,
    filter: FilterNode,
    order: Seq<OrderBy<C>>,
    limit: Option<u64>,
    window_functions: bool,
    ks: Seq<ValueView>,
    size: nat,
    v: Seq<CompiledSql>,
) -> bool {
    if per_key(limit, window_functions) {
        &&& v.len() == ks.len()
        &&& forall|j: int|
            0 <= j < ks.len() ==> compiled_is(#[trigger] v[j], key_limited_text::<C>(d, key_col, filter, order, ks[j], limit->0))
    } else {
        &&& v.len() * size >= ks.len()
        &&& v.len() > 0 ==> (v.len() - 1) * size < ks.len()
        &&& forall|k: int|
            0 <= k < v.len() ==> compiled_is(
                #[trigger] v[k],
                chunk_text::<C>(d, key_col, filter, order, limit, ks.subrange(k * size, part_end(k * size, size as int, ks.len() as int))),
            )
    }
}

/// Every statement the plan may build compiles: its subqueries can be
/// spliced in.
pub open spec fn fetch_ok<C: Model>(
    d: Dialect,
    key_col: &'static str,
    filter: FilterNode,
    order: Seq<OrderBy<C>>,
    limit: Option<u64>,
    window_functions: bool,
    ks: Seq<ValueView>,
    size: nat,
) -> bool {
    if per_key(limit, window_functions) {
        forall|j: int| 0 <= j < ks.len() ==> (#[trigger] key_limited_text::<C>(d, key_col, filter, order, ks[j], limit->0)).2
    } else {
        forall|a: int, b: int|
            0 <= a < b <= ks.len() && b - a <= size ==> (#[trigger] chunk_text::<C>(d, key_col, filter, order, limit, ks.subrange(a, b))).2
    }
}

/// The statement for one chunk of keys.
fn chunk_statement<C: Model>(
    dialect: Dialect,
    key_col: &'static str,
    filter: &FilterNode,
    order: &[OrderBy<C>],
    limit: Option<u64>,
    part: &[Value],
) -> (r: CompiledSql)
    requires
        chunk_text::<C>(dialect, key_col, *filter, order@, limit, views_of(part@)).2,
    ensures
        compiled_is(r, chunk_text::<C>(dialect, key_col, *filter, order@, limit, views_of(part@))),
{
    match limit {
        Some(take) => keys_partitioned_statement::<C>(dialect, key_col, filter, order, part, take),
        None => keys_in_statement::<C>(dialect, key_col, filter, order, part),
    }
}

/// Views of a slice are the slice of the views.
proof fn lemma_views_of_subrange(s: Seq<Value>, a: int, b: int)
    requires
        0 <= a <= b <= s.len(),
    ensures
        views_of(s.subrange(a, b)) == views_of(s).subrange(a, b),
{
    lemma_views_of_index(s);
    lemma_views_of_index(s.subrange(a, b));
    assert(views_of(s.subrange(a, b)) =~= views_of(s).subrange(a, b));
}

/// The statements that read the children of `C` for the parent keys
/// `keys`: the keys are deduplicated; then one window query a chunk of
/// [`chunk_len`] keys when a per-parent `limit` is set, or one `LIMIT`ed
/// query a key on a dialect without window functions, or one `IN` query a
/// chunk with no limit. No keys, no statement.
#[verifier::rlimit(40)]
#[verifier::spinoff_prover]
pub fn child_fetch_statements<C: Model>(
    dialect: Dialect,
    key_col: &'static str,
    filter: &FilterNode,
    order: &[OrderBy<C>],
    limit: Option<u64>,
    keys: &[Value],
    max_query_params: u32,
    window_functions: bool,
) -> (r: Vec<CompiledSql>)
    requires
        fetch_ok::<C>(
            dialect,
            key_col,
            *filter,
            order@,
            limit,
            window_functions,
            first_seen(views_of(keys@)),
            chunk_len(max_query_params),
        ),
    ensures
        fetch_plan::<C>(
            dialect,
            key_col,
            *filter,
            order@,
            limit,
            window_functions,
            first_seen(views_of(keys@)),
            chunk_len(max_query_params),
            r@,
        ),
{
    let uniq = dedup(keys);
    let ghost ks = first_seen(views_of(keys@));
    proof {
        lemma_views_of_index(uniq@);
    }
    let n = uniq.len();
    if n == 0 {
        let none: Vec<CompiledSql> = Vec::new();
        return none;
    }
    let per = match limit {
        Some(_) => !window_functions,
        None => false,
    };
    if per {
        let take = match limit {
            Some(t) => t,
            None => 0,
        };
        let mut out: Vec<CompiledSql> = Vec::new();
        let mut j: usize = 0;
        while j < n
            invariant
                n == uniq@.len(),
                ks == views_of(uniq@),
                ks.len() == n,
                forall|i: int| 0 <= i < n ==> #[trigger] views_of(uniq@)[i] == uniq@[i]@,
                per_key(limit, window_functions),
                limit == Some(take),
                fetch_ok::<C>(dialect, key_col, *filter, order@, limit, window_functions, ks, chunk_len(max_query_params)),
                j <= n,
                out@.len() == j,
                forall|i: int|
                    0 <= i < j ==> compiled_is(#[trigger] out@[i], key_limited_text::<C>(dialect, key_col, *filter, order@, ks[i], take)),
            decreases n - j,
        {
            proof {
                assert(uniq@[j as int]@ == ks[j as int]);
                assert(key_limited_text::<C>(dialect, key_col, *filter, order@, ks[j as int], limit->0).2);
            }
            let c = key_limited_statement::<C>(dialect, key_col, filter, order, &uniq[j], take);
            let ghost before = out@;
            out.push(c);
            proof {
                assert forall|i: int| 0 <= i < j + 1 implies compiled_is(
                    #[trigger] out@[i],
                    key_limited_text::<C>(dialect, key_col, *filter, order@, ks[i], take),
                ) by {
                    if i < j {
                        assert(out@[i] == before[i]);
                    }
                }
            }
            j = j + 1;
        }
        return out;
    }
    let size = chunk_size(max_query_params);
    let mut out: Vec<CompiledSql> = Vec::new();
    let mut start: usize = 0;
    proof {
        assert(out@.len() * size == 0);
    }
    while start < n
        invariant
            n == uniq@.len(),
            n > 0,
            ks == views_of(uniq@),
            ks.len() == n,
            !per_key(limit, window_functions),
            fetch_ok::<C>(dialect, key_col, *filter, order@, limit, window_functions, ks, chunk_len(max_query_params)),
            size >= 1,
            size == chunk_len(max_query_params),
            start <= n,
            start < n ==> start == out@.len() * size,
            start == n ==> out@.len() > 0 && out@.len() * size >= n && (out@.len() - 1) * size < n,
            forall|k: int|
                0 <= k < out@.len() ==> compiled_is(
                    #[trigger] out@[k],
                    chunk_text::<C>(
                        dialect,
                        key_col,
                        *filter,
                        order@,
                        limit,
                        ks.subrange(k * size, part_end(k * size, size as int, n as int)),
                    ),
                ),
        decreases n - start,
    {
        let end: usize = if n - start > size {
            start + size
        } else {
            n
        };
        let (_, tail) = uniq.as_slice().split_at(start);
        let (part, _) = tail.split_at(end - start);
        proof {
            assert(part@ =~= uniq@.subrange(start as int, end as int));
            lemma_views_of_subrange(uniq@, start as int, end as int);
            assert(views_of(part@) == ks.subrange(start as int, end as int));
            assert(chunk_text::<C>(dialect, key_col, *filter, order@, limit, ks.subrange(start as int, end as int)).2);
            assert((out@.len() + 1) * size == out@.len() * size + size) by (nonlinear_arith);
        }
        let c = chunk_statement::<C>(dialect, key_col, filter, order, limit, part);
        let ghost k = out@.len() as int;
        let ghost before = out@;
        out.push(c);
        proof {
            assert(part_end(k * size, size as int, n as int) == end);
            assert forall|i: int| 0 <= i < out@.len() implies compiled_is(
                #[trigger] out@[i],
                chunk_text::<C>(
                    dialect,
                    key_col,
                    *filter,
                    order@,
                    limit,
                    ks.subrange(i * size, part_end(i * size, size as int, n as int)),
                ),
            ) by {
                if i < k {
                    assert(out@[i] == before[i]);
                }
            }
        }
        start = end;
    }
    out
}

/// The empty conjunction, which stands for no filter.
pub open spec fn no_filter() -> FilterNode {
    choose|f: FilterNode| crate::filter::is_trivial(f)
}

/// `column` of `M`, ascending.
pub open spec fn ascending<M: Model>(column: &'static str) -> OrderBy<M> {
    OrderBy { table: M::TABLE, column, desc: false, json_path: None, text: false, _marker: PhantomData }
}

/// The order in which join rows are read: by owner, then by target.
pub open spec fn join_row_order<J: Model>(owner_col: &'static str, target_col: &'static str) -> Seq<OrderBy<J>> {
    seq![ascending::<J>(owner_col), ascending::<J>(target_col)]
}

/// The statements that read the join rows of `J` whose `owner_col` is among
/// the parent keys `keys` (many-to-many relations): the keys are
/// deduplicated and read a chunk of [`chunk_len`] keys at a time, each
/// chunk ordered by owner and then by target, with no other filter. No keys,
/// no statement.
pub fn join_row_statements<J: Model>(
    dialect: Dialect,
    owner_col: &'static str,
    target_col: &'static str,
    keys: &[Value],
    max_query_params: u32,
) -> (r: Vec<CompiledSql>)
    requires
        fetch_ok::<J>(
            dialect,
            owner_col,
            no_filter(),
            join_row_order::<J>(owner_col, target_col),
            None,
            true,
            first_seen(views_of(keys@)),
            chunk_len(max_query_params),
        ),
    ensures
        fetch_plan::<J>(
            dialect,
            owner_col,
            no_filter(),
            join_row_order::<J>(owner_col, target_col),
            None,
            true,
            first_seen(views_of(keys@)),
            chunk_len(max_query_params),
            r@,
        ),
{
    let mut order: Vec<OrderBy<J>> = Vec::new();
    order.push(OrderBy::new(J::TABLE, owner_col, false));
    order.push(OrderBy::new(J::TABLE, target_col, false));
    let none = FilterNode::And(Vec::new());
    let ghost ks = first_seen(views_of(keys@));
    let ghost size = chunk_len(max_query_params);
    proof {
        assert(order@ =~= join_row_order::<J>(owner_col, target_col));
        assert(crate::filter::is_trivial(none));
        assert(crate::filter::is_trivial(no_filter()));
        assert(flat_part(none, true) =~= flat_part(no_filter(), true));
        assert forall|a: int, b: int| 0 <= a < b <= ks.len() && b - a <= size implies (#[trigger] chunk_text::<J>(
            dialect,
            owner_col,
            none,
            order@,
            None,
            ks.subrange(a, b),
        )).2 by {
            assert(chunk_text::<J>(dialect, owner_col, none, order@, None, ks.subrange(a, b)) == chunk_text::<J>(
                dialect,
                owner_col,
                no_filter(),
                order@,
                None,
                ks.subrange(a, b),
            ));
        }
    }
    let r = child_fetch_statements::<J>(dialect, owner_col, &none, order.as_slice(), None, keys, max_query_params, true);
    proof {
        assert forall|k: int| 0 <= k < r@.len() implies compiled_is(
            #[trigger] r@[k],
            chunk_text::<J>(
                dialect,
                owner_col,
                no_filter(),
                order@,
                None,
                ks.subrange(k * size, part_end(k * size, size as int, ks.len() as int)),
            ),
        ) by {
            let c = ks.subrange(k * size, part_end(k * size, size as int, ks.len() as int));
            assert(chunk_text::<J>(dialect, owner_col, none, order@, None, c) == chunk_text::<J>(
                dialect,
                owner_col,
                no_filter(),
                order@,
                None,
                c,
            ));
        }
    }
    r
}

} // verus!
