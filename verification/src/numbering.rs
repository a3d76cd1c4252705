//! The numbering of bind placeholders in compiled filters.
//!
//! On a dialect that numbers its parameters (`$1`, `$2`, ...), the text a
//! filter compiles to after `k` earlier binds holds exactly the markers
//! `$k+1`, ..., `$k+n` for its `n` binds, each once, left to right.
use vstd::prelude::*;

use crate::compile::{filter_sql, list_sql, placeholder_list, qcol, raw_bind_count, raw_text};
use crate::dialect::{escape_quotes, placeholder_text, quoted, Dialect};
use crate::filter::{is_trivial, FilterNode};
use crate::text::{decimal, digit_char, sep_join};

verus! {

/// Whether `c` is an ASCII digit.
pub open spec fn is_digit_char(c: char) -> bool {
    '0' <= c && c <= '9'
}

/// The number of ASCII digits at the start of `s`.
pub open spec fn digit_len(s: Seq<char>) -> nat
    decreases s.len(),
{
    if s.len() > 0 && is_digit_char(s[0]) {
        1 + digit_len(s.drop_first())
    } else {
        0
    }
}

/// The number that the ASCII digits `s` spell.
pub open spec fn digits_value(s: Seq<char>) -> nat
    decreases s.len(),
{
    if s.len() == 0 {
        0
    } else {
        digits_value(s.drop_last()) * 10 + (s.last() as nat - '0' as nat) as nat
    }
}

/// A digit run is no longer than its text.
pub proof fn lemma_digit_len_le(s: Seq<char>)
    ensures
        digit_len(s) <= s.len(),
    decreases s.len(),
{
    if s.len() > 0 && is_digit_char(s[0]) {
        lemma_digit_len_le(s.drop_first());
    }
}

/// The numbers of the `$n` markers of `s`, left to right.
pub open spec fn markers(s: Seq<char>) -> Seq<nat>
    decreases s.len(),
{
    if s.len() == 0 {
        Seq::empty()
    } else if s[0] == '$' && digit_len(s.drop_first()) > 0 {
        let n = digit_len(s.drop_first());
        proof {
            lemma_digit_len_le(s.drop_first());
        }
        seq![digits_value(s.subrange(1, n + 1 as int))] + markers(s.subrange(n + 1 as int, s.len() as int))
    } else {
        markers(s.drop_first())
    }
}

/// `s` holds no `$`.
pub open spec fn no_dollar(s: Seq<char>) -> bool {
    forall|i: int| 0 <= i < s.len() ==> s[i] != '$'
}

/// `s` is empty or does not start with a digit.
pub open spec fn starts_ok(s: Seq<char>) -> bool {
    s.len() == 0 || !is_digit_char(s[0])
}

/// The markers `$k+1`, ..., `$k+n`.
pub open spec fn numbers_from(k: nat, n: nat) -> Seq<nat> {
    Seq::new(n, |i: int| (k + i + 1) as nat)
}

proof fn lemma_no_dollar_concat(a: Seq<char>, b: Seq<char>)
    requires
        no_dollar(a),
        no_dollar(b),
    ensures
        no_dollar(a + b),
{
    assert forall|i: int| 0 <= i < (a + b).len() implies (a + b)[i] != '$' by {
        if i < a.len() {
            assert((a + b)[i] == a[i]);
        } else {
            assert((a + b)[i] == b[i - a.len()]);
        }
    }
}

/// A text without `$` holds no marker.
proof fn lemma_markers_none(s: Seq<char>)
    requires
        no_dollar(s),
    ensures
        markers(s) == Seq::<nat>::empty(),
    decreases s.len(),
{
    if s.len() > 0 {
        assert(s[0] != '$');
        assert forall|i: int| 0 <= i < s.drop_first().len() implies s.drop_first()[i] != '$' by {
            assert(s.drop_first()[i] == s[i + 1]);
        }
        lemma_markers_none(s.drop_first());
    }
}

/// A text without `$` before `b` adds no marker to those of `b`.
proof fn lemma_markers_skip(a: Seq<char>, b: Seq<char>)
    requires
        no_dollar(a),
    ensures
        markers(a + b) == markers(b),
    decreases a.len(),
{
    if a.len() > 0 {
        assert((a + b)[0] == a[0]);
        assert((a + b).drop_first() =~= a.drop_first() + b);
        assert forall|i: int| 0 <= i < a.drop_first().len() implies a.drop_first()[i] != '$' by {
            assert(a.drop_first()[i] == a[i + 1]);
        }
        lemma_markers_skip(a.drop_first(), b);
    } else {
        assert(a + b =~= b);
    }
}

proof fn lemma_digit_len_append(x: Seq<char>, b: Seq<char>)
    requires
        starts_ok(b),
    ensures
        digit_len(x + b) == digit_len(x),
    decreases x.len(),
{
    if x.len() == 0 {
        assert(x + b =~= b);
    } else {
        assert((x + b)[0] == x[0]);
        assert((x + b).drop_first() =~= x.drop_first() + b);
        lemma_digit_len_append(x.drop_first(), b);
    }
}

/// Markers do not run across a boundary before a non-digit.
proof fn lemma_markers_concat(a: Seq<char>, b: Seq<char>)
    requires
        starts_ok(b),
    ensures
        markers(a + b) == markers(a) + markers(b),
    decreases a.len(),
{
    if a.len() == 0 {
        assert(a + b =~= b);
        assert(markers(a) + markers(b) =~= markers(b));
    } else {
        let s = a + b;
        assert(s[0] == a[0]);
        assert(s.drop_first() =~= a.drop_first() + b);
        lemma_digit_len_append(a.drop_first(), b);
        lemma_digit_len_le(a.drop_first());
        let n = digit_len(a.drop_first());
        if a[0] == '$' && n > 0 {
            assert(s.subrange(1, n + 1 as int) =~= a.subrange(1, n + 1 as int));
            assert(s.subrange(n + 1 as int, s.len() as int) =~= a.subrange(n + 1 as int, a.len() as int) + b);
            lemma_markers_concat(a.subrange(n + 1 as int, a.len() as int), b);
            assert(markers(s) =~= markers(a) + markers(b));
        } else {
            lemma_markers_concat(a.drop_first(), b);
            assert(markers(s) =~= markers(a) + markers(b));
        }
    }
}

/// The marker runs join up.
proof fn lemma_numbers_concat(k: nat, n1: nat, n2: nat)
    ensures
        numbers_from(k, n1) + numbers_from(k + n1, n2) == numbers_from(k, n1 + n2),
{
    assert(numbers_from(k, n1) + numbers_from(k + n1, n2) =~= numbers_from(k, n1 + n2));
}

proof fn lemma_decimal_digits(v: nat)
    ensures
        decimal(v).len() > 0,
        forall|i: int| 0 <= i < decimal(v).len() ==> #[trigger] is_digit_char(decimal(v)[i]),
        digits_value(decimal(v)) == v,
    decreases v,
{
    lemma_digit_char(v % 10);
    let d = decimal(v);
    if v >= 10 {
        lemma_decimal_digits(v / 10);
        assert(d.drop_last() =~= decimal(v / 10));
        assert(d.last() == digit_char(v % 10));
        assert(forall|i: int| 0 <= i < decimal(v / 10).len() ==> d[i] == decimal(v / 10)[i]);
        assert(digits_value(d) == digits_value(d.drop_last()) * 10 + (d.last() as nat - '0' as nat) as nat);
        assert(digits_value(d) == digits_value(decimal(v / 10)) * 10 + v % 10);
        assert((v / 10) * 10 + v % 10 == v);
    } else {
        assert(v % 10 == v);
        assert(d == seq![digit_char(v)]);
        assert(d.drop_last() =~= Seq::<char>::empty());
        assert(digits_value(d.drop_last()) == 0);
        assert(digits_value(d) == digits_value(d.drop_last()) * 10 + (d.last() as nat - '0' as nat) as nat);
    }
}

proof fn lemma_digit_char(n: nat)
    requires
        n < 10,
    ensures
        is_digit_char(digit_char(n)),
        digit_char(n) as nat - '0' as nat == n,
{
}

proof fn lemma_digit_len_all(s: Seq<char>)
    requires
        forall|i: int| 0 <= i < s.len() ==> #[trigger] is_digit_char(s[i]),
    ensures
        digit_len(s) == s.len(),
    decreases s.len(),
{
    if s.len() > 0 {
        assert(forall|i: int| 0 <= i < s.drop_first().len() ==> s.drop_first()[i] == s[i + 1]);
        lemma_digit_len_all(s.drop_first());
    }
}

/// The marker of the bind at position `k` on Postgres is `$k+1`.
proof fn lemma_markers_placeholder(k: nat)
    ensures
        markers(placeholder_text(Dialect::Postgres, k)) == seq![(k + 1) as nat],
        starts_ok(placeholder_text(Dialect::Postgres, k)),
{
    let s = placeholder_text(Dialect::Postgres, k);
    let d = decimal(k + 1);
    lemma_decimal_digits(k + 1);
    assert(s.drop_first() =~= d);
    lemma_digit_len_all(d);
    assert(s[0] == '$');
    assert(digit_len(s.drop_first()) == d.len());
    assert(s.len() > 0 && s[0] == '$' && digit_len(s.drop_first()) > 0);
    assert(markers(s) == seq![digits_value(s.subrange(1, d.len() + 1 as int))] + markers(
        s.subrange(d.len() + 1 as int, s.len() as int),
    ));
    assert(s.subrange(1, d.len() + 1 as int) =~= d);
    assert(s.subrange(d.len() + 1 as int, s.len() as int) =~= Seq::<char>::empty());
    assert(markers(s) =~= seq![(k + 1) as nat]);
}


/// The identifiers of `f` hold no `$`, its raw fragments hold no `$` and
/// their later parts do not start with a digit, and it splices in no
/// compiled subquery.
pub open spec fn plain_node(f: FilterNode) -> bool
    decreases f,
{
    match f {
        FilterNode::Cmp { table, column, .. } => no_dollar(table@) && no_dollar(column@),
        FilterNode::Between { table, column, .. } => no_dollar(table@) && no_dollar(column@),
        FilterNode::Null { table, column, .. } => no_dollar(table@) && no_dollar(column@),
        FilterNode::In { table, column, .. } => no_dollar(table@) && no_dollar(column@),
        FilterNode::InSubquery { .. } => false,
        FilterNode::ColumnCmp { left_table, left_col, right_table, right_col, .. } => no_dollar(left_table@)
            && no_dollar(left_col@) && no_dollar(right_table@) && no_dollar(right_col@),
        FilterNode::Exists { child_table, child_col, parent_table, parent_col, filter, .. } => no_dollar(
            child_table@,
        ) && no_dollar(child_col@) && no_dollar(parent_table@) && no_dollar(parent_col@) && plain_node(*filter),
        FilterNode::ExistsSubquery { .. } => false,
        FilterNode::And(v) => {
            proof {
                broadcast use vstd::std_specs::vec::axiom_vec_decreases_to_view;

            }
            plain_nodes(v@)
        },
        FilterNode::Or(v) => {
            proof {
                broadcast use vstd::std_specs::vec::axiom_vec_decreases_to_view;

            }
            plain_nodes(v@)
        },
        FilterNode::Not(inner) => plain_node(*inner),
        FilterNode::Raw(raw) => plain_parts(raw.spec_parts()),
    }
}

/// Every node of `s` is a [`plain_node`].
pub open spec fn plain_nodes(s: Seq<FilterNode>) -> bool
    decreases s,
{
    if s.len() == 0 {
        true
    } else {
        plain_nodes(s.drop_last()) && plain_node(s.last())
    }
}

/// The parts of a raw fragment hold no `$`, and those after the first do
/// not start with a digit.
pub open spec fn plain_parts(parts: Seq<String>) -> bool {
    forall|i: int| 0 <= i < parts.len() ==> no_dollar(#[trigger] parts[i]@) && (i > 0 ==> starts_ok(parts[i]@))
}

proof fn lemma_escape_no_dollar(s: Seq<char>, q: char)
    requires
        no_dollar(s),
        q != '$',
    ensures
        no_dollar(escape_quotes(s, q)),
    decreases s.len(),
{
    if s.len() > 0 {
        assert(no_dollar(s.drop_last()));
        lemma_escape_no_dollar(s.drop_last(), q);
        assert(s.last() == s[s.len() - 1]);
    }
}

proof fn lemma_qcol(t: Seq<char>, c: Seq<char>)
    requires
        no_dollar(t),
        no_dollar(c),
    ensures
        no_dollar(qcol(Dialect::Postgres, t, c)),
        no_dollar(quoted(Dialect::Postgres, t)),
{
    reveal_strlit(".");
    lemma_escape_no_dollar(t, '"');
    lemma_escape_no_dollar(c, '"');
    assert(no_dollar(quoted(Dialect::Postgres, t)));
    assert(no_dollar(quoted(Dialect::Postgres, c)));
    assert(no_dollar(quoted(Dialect::Postgres, t) + "."@));
}

/// The fixed words of filter texts hold no `$` and do not start with a
/// digit.
proof fn lemma_words()
    ensures
        no_dollar(" "@),
        no_dollar("IS NULL"@),
        no_dollar("IS NOT NULL"@),
        no_dollar(" IS NULL"@),
        no_dollar(" IS NOT NULL"@),
        no_dollar(" BETWEEN "@),
        no_dollar(" AND "@) && starts_ok(" AND "@) && " AND "@.len() > 0,
        no_dollar(" OR "@) && starts_ok(" OR "@) && " OR "@.len() > 0,
        no_dollar(" IN ("@),
        no_dollar(" NOT IN ("@),
        no_dollar(")"@) && starts_ok(")"@),
        no_dollar(", "@) && starts_ok(", "@),
        no_dollar("TRUE"@),
        no_dollar("FALSE"@),
        no_dollar("("@),
        no_dollar("NOT ("@),
        no_dollar("NOT "@),
        no_dollar("EXISTS (SELECT 1 FROM "@),
        no_dollar(" WHERE "@),
        no_dollar(" = "@),
        forall|op: crate::filter::CmpOp| #[trigger] no_dollar(crate::compile::op_text(Dialect::Postgres, op)),
{
    reveal_strlit(" ");
    reveal_strlit("IS NULL");
    reveal_strlit("IS NOT NULL");
    reveal_strlit(" IS NULL");
    reveal_strlit(" IS NOT NULL");
    reveal_strlit(" BETWEEN ");
    reveal_strlit(" AND ");
    reveal_strlit(" OR ");
    reveal_strlit(" IN (");
    reveal_strlit(" NOT IN (");
    reveal_strlit(")");
    reveal_strlit(", ");
    reveal_strlit("TRUE");
    reveal_strlit("FALSE");
    reveal_strlit("(");
    reveal_strlit("NOT (");
    reveal_strlit("NOT ");
    reveal_strlit("EXISTS (SELECT 1 FROM ");
    reveal_strlit(" WHERE ");
    reveal_strlit(" = ");
    reveal_strlit("=");
    reveal_strlit("!=");
    reveal_strlit(">");
    reveal_strlit(">=");
    reveal_strlit("<");
    reveal_strlit("<=");
    reveal_strlit("LIKE");
    reveal_strlit("ILIKE");
}

/// The markers of a list of placeholders joined by `, `.
proof fn lemma_placeholder_list(k: nat, n: nat)
    ensures
        markers(sep_join(placeholder_list(Dialect::Postgres, k, n), ", "@)) == numbers_from(k, n),
    decreases n,
{
    lemma_words();
    let ps = placeholder_list(Dialect::Postgres, k, n);
    if n == 0 {
        assert(numbers_from(k, 0) =~= Seq::<nat>::empty());
    } else if n == 1 {
        lemma_markers_placeholder(k);
        assert(ps[0] == placeholder_text(Dialect::Postgres, k));
        assert(numbers_from(k, 1) =~= seq![(k + 1) as nat]);
    } else {
        lemma_placeholder_list(k, (n - 1) as nat);
        assert(ps.drop_last() =~= placeholder_list(Dialect::Postgres, k, (n - 1) as nat));
        let last = placeholder_text(Dialect::Postgres, (k + n - 1) as nat);
        assert(ps.last() == last);
        lemma_markers_placeholder((k + n - 1) as nat);
        let prev = sep_join(ps.drop_last(), ", "@);
        lemma_markers_concat(prev + ", "@, last);
        lemma_markers_concat(prev, ", "@);
        lemma_markers_none(", "@);
        assert(numbers_from(k, (n - 1) as nat) + seq![(k + n - 1 + 1) as nat] =~= numbers_from(k, n));
    }
}

/// The markers of a raw fragment's text: one for each part that has a
/// bind.
proof fn lemma_raw_markers(parts: Seq<String>, nb: nat, k: nat)
    requires
        plain_parts(parts),
    ensures
        markers(raw_text(Dialect::Postgres, parts, nb, k)) == numbers_from(
            k,
            if parts.len() < nb {
                parts.len()
            } else {
                nb
            },
        ),
    decreases parts.len(),
{
    if parts.len() == 0 {
        assert(numbers_from(k, 0) =~= Seq::<nat>::empty());
    } else {
        let i = (parts.len() - 1) as nat;
        let p0 = parts.drop_last();
        assert(plain_parts(p0)) by {
            assert forall|j: int| 0 <= j < p0.len() implies no_dollar(#[trigger] p0[j]@) && (j > 0 ==> starts_ok(
                p0[j]@,
            )) by {
                assert(p0[j] == parts[j]);
            }
        }
        lemma_raw_markers(p0, nb, k);
        let prev = raw_text(Dialect::Postgres, p0, nb, k);
        let part = parts.last()@;
        assert(parts.last() == parts[parts.len() - 1]);
        assert(no_dollar(part));
        lemma_markers_none(part);
        if i == 0 {
            assert(prev =~= Seq::<char>::empty());
            assert(prev + part =~= part);
        } else {
            assert(starts_ok(part));
            lemma_markers_concat(prev, part);
        }
        let m0 = if p0.len() < nb {
            p0.len()
        } else {
            nb
        };
        assert(markers(prev + part) == numbers_from(k, m0));
        if i < nb {
            lemma_markers_placeholder((k + i) as nat);
            lemma_markers_concat(prev + part, placeholder_text(Dialect::Postgres, (k + i) as nat));
            assert(numbers_from(k, m0) + seq![(k + i + 1) as nat] =~= numbers_from(k, parts.len()));
        } else {
            assert(prev + part + Seq::<char>::empty() =~= prev + part);
        }
    }
}


/// On a numbered dialect, the text a filter compiles to after `k` earlier
/// binds holds exactly the markers `$k+1`, ..., `$k+n` for its `n` binds,
/// each once, left to right: the bind at position `k + i` is the one
/// marked `$k+i+1`.
pub proof fn law_placeholders_in_order(f: FilterNode, k: nat)
    requires
        plain_node(f),
    ensures
        markers(filter_sql(Dialect::Postgres, f, k).0) == numbers_from(k, filter_sql(Dialect::Postgres, f, k).1.len()),
    decreases f,
{
    let d = Dialect::Postgres;
    lemma_words();
    let r = filter_sql(d, f, k);
    match f {
        FilterNode::Cmp { table, column, op, value } => {
            lemma_qcol(table@, column@);
            let head = qcol(d, table@, column@) + " "@ + crate::compile::op_text(d, op) + " "@;
            assert(no_dollar(crate::compile::op_text(d, op)));
            assert(no_dollar(head));
            if (value is Null) && (op is Eq) {
                lemma_markers_none(head + "IS NULL"@);
                assert(numbers_from(k, 0) =~= Seq::<nat>::empty());
            } else if (value is Null) && (op is Ne) {
                lemma_markers_none(head + "IS NOT NULL"@);
                assert(numbers_from(k, 0) =~= Seq::<nat>::empty());
            } else {
                lemma_markers_skip(head, placeholder_text(d, k));
                lemma_markers_placeholder(k);
                assert(numbers_from(k, 1) =~= seq![(k + 1) as nat]);
            }
        },
        FilterNode::Between { table, column, lo, hi } => {
            lemma_qcol(table@, column@);
            let a = qcol(d, table@, column@) + " BETWEEN "@;
            let p1 = placeholder_text(d, k);
            let p2 = placeholder_text(d, k + 1);
            lemma_markers_placeholder(k);
            lemma_markers_placeholder(k + 1);
            lemma_markers_skip(a, p1);
            lemma_markers_concat(a + p1, " AND "@);
            lemma_markers_none(" AND "@);
            lemma_markers_concat(a + p1 + " AND "@, p2);
            assert(numbers_from(k, 2) =~= seq![(k + 1) as nat, (k + 2) as nat]);
            assert(markers(a + p1 + " AND "@) =~= seq![(k + 1) as nat]);
        },
        FilterNode::Null { table, column, negated } => {
            lemma_qcol(table@, column@);
            lemma_markers_none(r.0);
            assert(numbers_from(k, 0) =~= Seq::<nat>::empty());
        },
        FilterNode::In { table, column, values, negated } => {
            lemma_qcol(table@, column@);
            let a = qcol(d, table@, column@) + if negated {
                " NOT IN ("@
            } else {
                " IN ("@
            };
            let sj = sep_join(placeholder_list(d, k, values@.len()), ", "@);
            lemma_placeholder_list(k, values@.len());
            lemma_markers_skip(a, sj);
            lemma_markers_concat(a + sj, ")"@);
            lemma_markers_none(")"@);
            crate::value::lemma_views_of_index(values@);
            assert(markers(a + sj + ")"@) =~= numbers_from(k, values@.len()));
        },
        FilterNode::ColumnCmp { left_table, left_col, op, right_table, right_col } => {
            lemma_qcol(left_table@, left_col@);
            lemma_qcol(right_table@, right_col@);
            assert(no_dollar(crate::compile::op_text(d, op)));
            lemma_markers_none(r.0);
            assert(numbers_from(k, 0) =~= Seq::<nat>::empty());
        },
        FilterNode::And(nodes) => {
            broadcast use vstd::std_specs::vec::axiom_vec_decreases_to_view;

            lemma_junction(nodes@, " AND "@, "TRUE"@, k);
        },
        FilterNode::Or(nodes) => {
            broadcast use vstd::std_specs::vec::axiom_vec_decreases_to_view;

            lemma_junction(nodes@, " OR "@, "FALSE"@, k);
        },
        FilterNode::Not(inner) => {
            law_placeholders_in_order(*inner, k);
            let i = filter_sql(d, *inner, k);
            lemma_markers_skip("NOT ("@, i.0);
            lemma_markers_concat("NOT ("@ + i.0, ")"@);
            lemma_markers_none(")"@);
            assert(markers("NOT ("@ + i.0 + ")"@) =~= markers(i.0));
        },
        FilterNode::Exists { child_table, child_col, parent_table, parent_col, filter, negated } => {
            lemma_qcol(child_table@, child_col@);
            lemma_qcol(parent_table@, parent_col@);
            let head = if negated {
                "NOT "@
            } else {
                Seq::empty()
            } + "EXISTS (SELECT 1 FROM "@ + quoted(d, child_table@) + " WHERE "@ + qcol(
                d,
                child_table@,
                child_col@,
            ) + " = "@ + qcol(d, parent_table@, parent_col@);
            assert(no_dollar(head));
            if is_trivial(*filter) {
                lemma_markers_none(head + ")"@);
                assert(numbers_from(k, 0) =~= Seq::<nat>::empty());
            } else {
                law_placeholders_in_order(*filter, k);
                let i = filter_sql(d, *filter, k);
                lemma_markers_skip(head + " AND "@, i.0);
                lemma_markers_concat(head + " AND "@ + i.0, ")"@);
                lemma_markers_none(")"@);
                assert(markers(head + " AND "@ + i.0 + ")"@) =~= markers(i.0));
            }
        },
        FilterNode::Raw(raw) => {
            lemma_raw_markers(raw.spec_parts(), raw.spec_binds().len(), k);
            crate::value::lemma_views_of_index(raw.spec_binds().take(raw_bind_count(raw) as int));
        },
        _ => {},
    }
}

/// The markers of a conjunction or disjunction of `nodes`: `empty` for no
/// node, the node's own for one, the list's in parentheses for more.
proof fn lemma_junction(nodes: Seq<FilterNode>, sep: Seq<char>, empty: Seq<char>, k: nat)
    requires
        plain_nodes(nodes),
        no_dollar(sep),
        starts_ok(sep),
        sep.len() > 0,
        no_dollar(empty),
    ensures
        ({
            let r = if nodes.len() == 0 {
                (empty, Seq::<crate::value::ValueView>::empty(), true)
            } else if nodes.len() == 1 {
                filter_sql(Dialect::Postgres, nodes[0], k)
            } else {
                let l = list_sql(Dialect::Postgres, nodes, sep, k);
                ("("@ + l.0 + ")"@, l.1, l.2)
            };
            markers(r.0) == numbers_from(k, r.1.len())
        }),
    decreases nodes, 1nat,
{
    lemma_words();
    if nodes.len() == 0 {
        lemma_markers_none(empty);
        assert(numbers_from(k, 0) =~= Seq::<nat>::empty());
    } else if nodes.len() == 1 {
        assert(nodes.last() == nodes[0]);
        law_placeholders_in_order(nodes[0], k);
    } else {
        lemma_list_markers(nodes, sep, k);
        let l = list_sql(Dialect::Postgres, nodes, sep, k);
        lemma_markers_skip("("@, l.0);
        lemma_markers_concat("("@ + l.0, ")"@);
        lemma_markers_none(")"@);
        assert(markers("("@ + l.0 + ")"@) =~= markers(l.0));
    }
}

/// The markers of `nodes` joined by `sep`.
proof fn lemma_list_markers(nodes: Seq<FilterNode>, sep: Seq<char>, k: nat)
    requires
        plain_nodes(nodes),
        no_dollar(sep),
        starts_ok(sep),
        sep.len() > 0,
    ensures
        markers(list_sql(Dialect::Postgres, nodes, sep, k).0) == numbers_from(k, list_sql(Dialect::Postgres, nodes, sep, k).1.len()),
    decreases nodes, 0nat,
{
    let d = Dialect::Postgres;
    if nodes.len() == 0 {
        assert(numbers_from(k, 0) =~= Seq::<nat>::empty());
    } else {
        let p = list_sql(d, nodes.drop_last(), sep, k);
        lemma_list_markers(nodes.drop_last(), sep, k);
        law_placeholders_in_order(nodes.last(), k + p.1.len());
        let l = filter_sql(d, nodes.last(), k + p.1.len());
        if nodes.len() == 1 {
            assert(p.1.len() == 0);
            assert(p.1 + l.1 =~= l.1);
        } else {
            assert(p.0 + sep + l.0 =~= p.0 + (sep + l.0));
            assert(starts_ok(sep + l.0)) by {
                assert((sep + l.0)[0] == sep[0]);
            }
            lemma_markers_concat(p.0, sep + l.0);
            lemma_markers_skip(sep, l.0);
            lemma_numbers_concat(k, p.1.len(), l.1.len());
        }
    }
}

} // verus!
