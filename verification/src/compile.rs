//! SQL compiler: turns `Filter`/`Order`/`Value` trees into parameterised SQL.
//!
//! Every runtime value is pushed as a placeholder; there is no string
//! interpolation of user data. The compiler is dialect-aware so it can quote
//! identifiers and produce the correct parameter markers.
use vstd::prelude::*;

use crate::aggregate::{kind_sql, AggregateEntry, AggregateKind};
use crate::dialect::{numbered, placeholder_text, quoted, str_views, upsert_clause_text, Dialect};
use crate::filter::{is_trivial, CmpOp, Cte, FilterNode, RawFragment};
use crate::join::JoinKind;
use crate::model::Model;
use crate::order::OrderBy;
use crate::query::{set_op_text, SetOp};
use crate::text::{decimal, lemma_sep_join_push, push_char, push_decimal, sep_join};
use crate::value::{copy_value, copy_values, lemma_views_of_add, lemma_views_of_index, views_of, Value, ValueView};

verus! {

broadcast use vstd::std_specs::vec::axiom_vec_index_decreases;

/// A compiled SQL statement and its bound values.
#[derive(Debug, PartialEq)]
pub struct CompiledSql {
    /// The SQL string with placeholders.
    pub sql: String,
    /// The values bound to the placeholders, in order.
    pub binds: Vec<Value>,
}

impl Clone for CompiledSql {
    fn clone(&self) -> (r: Self)
        ensures
            r.sql@ == self.sql@,
            views_of(r.binds@) == views_of(self.binds@),
    {
        CompiledSql { sql: self.sql.clone(), binds: copy_values(&self.binds) }
    }
}

// ---------------------------------------------------------------------------
// Placeholder renumbering
// ---------------------------------------------------------------------------

/// The UTF-8 bytes of a string's text.
pub open spec fn bytes_of(s: Seq<char>) -> Seq<u8> {
    vstd::utf8::encode_utf8(s)
}

/// Whether `b` is an ASCII digit.
pub open spec fn is_digit(b: u8) -> bool {
    48 <= b <= 57
}

/// The number of ASCII digits at the start of `s`.
pub open spec fn digit_run(s: Seq<u8>) -> nat
    decreases s.len(),
{
    if s.len() > 0 && is_digit(s[0]) {
        1 + digit_run(s.drop_first())
    } else {
        0
    }
}

/// The value of the decimal numeral `s` (all of whose bytes are digits).
pub open spec fn digits_value(s: Seq<u8>) -> nat
    decreases s.len(),
{
    if s.len() == 0 {
        0
    } else {
        digits_value(s.drop_last()) * 10 + (s.last() - 48) as nat
    }
}

/// The digit run never exceeds the sequence.
pub proof fn lemma_digit_run_le(s: Seq<u8>)
    ensures
        digit_run(s) <= s.len(),
    decreases s.len(),
{
    if s.len() > 0 && is_digit(s[0]) {
        lemma_digit_run_le(s.drop_first());
    }
}

/// Where a `$n` token at the start of `s` ends.
pub open spec fn token_end(s: Seq<u8>) -> int {
    digit_run(s.drop_first()) as int + 1
}

/// The number of a `$n` token at the start of `s` (`s[0] == '$'`).
pub open spec fn token_value(s: Seq<u8>) -> nat {
    digits_value(s.subrange(1, token_end(s)))
}

/// Whether `s` starts with a `$n` token.
pub open spec fn starts_token(s: Seq<u8>) -> bool {
    s.len() > 0 && s[0] == 36 && digit_run(s.drop_first()) > 0
}

/// `s` read byte by byte, with every `$n` token replaced by `$(n + add)`.
///
/// Bytes outside tokens are carried over one byte to one character, as the
/// compiler does when it copies a subquery's text.
pub open spec fn shift_text(s: Seq<u8>, add: nat) -> Seq<char>
    decreases s.len(),
{
    if s.len() == 0 {
        Seq::empty()
    } else if starts_token(s) {
        proof {
            lemma_digit_run_le(s.drop_first());
        }
        seq!['$'] + decimal(token_value(s) + add) + shift_text(
            s.skip(token_end(s)),
            add,
        )
    } else {
        seq![s[0] as char] + shift_text(s.drop_first(), add)
    }
}

/// Every `$n` token in `s` has `lo <= n <= hi`.
pub open spec fn tokens_within(s: Seq<u8>, lo: nat, hi: nat) -> bool
    decreases s.len(),
{
    if s.len() == 0 {
        true
    } else if starts_token(s) {
        proof {
            lemma_digit_run_le(s.drop_first());
        }
        lo <= token_value(s) <= hi && tokens_within(
            s.skip(token_end(s)),
            lo,
            hi,
        )
    } else {
        tokens_within(s.drop_first(), lo, hi)
    }
}

/// Widening the bounds keeps `tokens_within`.
pub proof fn lemma_tokens_within_widen(s: Seq<u8>, lo: nat, hi: nat, lo2: nat, hi2: nat)
    requires
        tokens_within(s, lo, hi),
        lo2 <= lo,
        hi <= hi2,
    ensures
        tokens_within(s, lo2, hi2),
    decreases s.len(),
{
    if s.len() > 0 {
        if starts_token(s) {
            lemma_digit_run_le(s.drop_first());
            lemma_tokens_within_widen(s.skip(token_end(s)), lo, hi, lo2, hi2);
        } else {
            lemma_tokens_within_widen(s.drop_first(), lo, hi, lo2, hi2);
        }
    }
}

/// A run of digits ended by a non-digit (or the end) is the digit run.
proof fn lemma_digit_run(s: Seq<u8>, m: int)
    requires
        0 <= m <= s.len(),
        forall|t: int| 0 <= t < m ==> is_digit(#[trigger] s[t]),
        m == s.len() || !is_digit(s[m]),
    ensures
        digit_run(s) == m,
    decreases m,
{
    if m > 0 {
        lemma_digit_run(s.drop_first(), m - 1);
    }
}

/// A prefix of a numeral is worth no more than the numeral.
proof fn lemma_digits_prefix(s: Seq<u8>, m: int)
    requires
        0 <= m <= s.len(),
    ensures
        digits_value(s.take(m)) <= digits_value(s),
    decreases s.len(),
{
    if m < s.len() {
        lemma_digits_prefix(s.drop_last(), m);
        assert(s.drop_last().take(m) =~= s.take(m));
    } else {
        assert(s.take(m) =~= s);
    }
}

/// The bytes of `sql`, with the guarantee vstd gives for `as_bytes`.
fn sql_bytes(sql: &String) -> (b: &[u8])
    ensures
        b@ == bytes_of(sql@),
{
    sql.as_str().as_bytes()
}

/// Appends `shift_text(bytes, add)` to `out`.
fn push_shifted(out: &mut String, bytes: &[u8], add: usize)
    requires
        tokens_within(bytes@, 0, (usize::MAX - add) as nat),
    ensures
        final(out)@ == old(out)@ + shift_text(bytes@, add as nat),
{
    let len = bytes.len();
    let mut i: usize = 0;
    proof {
        assert(bytes@.skip(0) =~= bytes@);
        assert(old(out)@ + shift_text(bytes@, add as nat) == out@ + shift_text(bytes@.skip(0), add as nat));
    }
    while i < len
        invariant
            len == bytes@.len(),
            i <= len,
            tokens_within(bytes@.skip(i as int), 0, (usize::MAX - add) as nat),
            old(out)@ + shift_text(bytes@, add as nat) == out@ + shift_text(
                bytes@.skip(i as int),
                add as nat,
            ),
        decreases len - i,
    {
        let ghost s = bytes@.skip(i as int);
        let ghost before = out@;
        if bytes[i] == 36u8 {
            let mut j: usize = i + 1;
            let mut n: usize = 0;
            let ghost tail = s.drop_first();
            proof {
                assert(tail =~= bytes@.skip(i + 1));
            }
            let mut fits = true;
            while j < len && 48u8 <= bytes[j] && bytes[j] <= 57u8
                invariant
                    len == bytes@.len(),
                    i < len,
                    i + 1 <= j <= len,
                    s == bytes@.skip(i as int),
                    tail == s.drop_first(),
                    tail =~= bytes@.skip(i + 1),
                    forall|t: int| i + 1 <= t < j ==> is_digit(#[trigger] bytes@[t]),
                    n == digits_value(bytes@.subrange(i + 1, j as int)),
                    tokens_within(s, 0, (usize::MAX - add) as nat),
                    j > i + 1 ==> n <= usize::MAX - add,
                    bytes@[i as int] == 36,
                decreases len - j,
            {
                proof {
                    // The whole token bounds every prefix of it.
                    let m = (j + 1 - (i + 1)) as int;
                    assert forall|t: int| 0 <= t < m implies is_digit(#[trigger] tail[t]) by {
                        assert(tail[t] == bytes@[i + 1 + t]);
                    }
                    let k = digit_run(tail) as int;
                    lemma_digit_run_le(tail);
                    assert(k >= m) by {
                        lemma_digit_run_at_least(tail, m);
                    }
                    assert(starts_token(s));
                    let whole = s.subrange(1, k + 1);
                    assert(token_value(s) == digits_value(whole));
                    assert(token_value(s) <= usize::MAX - add);
                    lemma_digits_prefix(whole, m);
                    assert(whole.take(m) =~= bytes@.subrange(i + 1, j + 1));
                    let sub = bytes@.subrange(i + 1, j + 1);
                    assert(sub.drop_last() =~= bytes@.subrange(i + 1, j as int));
                }
                n = n * 10 + (bytes[j] - 48u8) as usize;
                j = j + 1;
            }
            if j > i + 1 {
                proof {
                    let m = (j - (i + 1)) as int;
                    assert forall|t: int| 0 <= t < m implies is_digit(#[trigger] tail[t]) by {
                        assert(tail[t] == bytes@[i + 1 + t]);
                    }
                    lemma_digit_run(tail, m);
                    assert(s.subrange(1, m + 1) =~= bytes@.subrange(i + 1, j as int));
                    assert(s.skip(m + 1) =~= bytes@.skip(j as int));
                }
                push_char(out, '$');
                push_decimal(out, n as u64 + add as u64);
                proof {
                    assert(out@ =~= before + seq!['$'] + decimal((n + add) as nat));
                }
                i = j;
            } else {
                proof {
                    lemma_digit_run(tail, 0);
                    assert(!starts_token(s));
                    assert(s.drop_first() =~= bytes@.skip(i + 1));
                }
                push_char(out, bytes[i] as char);
                i = i + 1;
            }
        } else {
            proof {
                assert(!starts_token(s));
                assert(s.drop_first() =~= bytes@.skip(i + 1));
            }
            push_char(out, bytes[i] as char);
            i = i + 1;
        }
    }
    proof {
        assert(bytes@.skip(len as int) =~= Seq::<u8>::empty());
        assert(out@ =~= old(out)@ + shift_text(bytes@, add as nat));
    }
}

/// A digit prefix of length `m` means the digit run is at least `m`.
proof fn lemma_digit_run_at_least(s: Seq<u8>, m: int)
    requires
        0 <= m <= s.len(),
        forall|t: int| 0 <= t < m ==> is_digit(#[trigger] s[t]),
    ensures
        digit_run(s) >= m,
    decreases m,
{
    if m > 0 {
        assert forall|t: int| 0 <= t < m - 1 implies is_digit(#[trigger] s.drop_first()[t]) by {
            assert(s.drop_first()[t] == s[t + 1]);
        }
        lemma_digit_run_at_least(s.drop_first(), m - 1);
    }
}

/// Whether `s` contains the byte `$`.
pub open spec fn has_dollar(s: Seq<u8>) -> bool {
    exists|i: int| 0 <= i < s.len() && s[i] == 36
}

/// The text of a statement `sql` with `nbinds` binds after `renumbered(offset)`.
pub open spec fn renumber_seq(sql: Seq<char>, nbinds: nat, offset: nat) -> Seq<char> {
    if offset == 0 || nbinds == 0 || !has_dollar(bytes_of(sql)) {
        sql
    } else {
        shift_text(bytes_of(sql), offset)
    }
}

/// What renumbering by `offset` needs so that no shifted number overflows.
pub open spec fn renumber_seq_ok(sql: Seq<char>, nbinds: nat, offset: nat) -> bool {
    offset == 0 || nbinds == 0 || !has_dollar(bytes_of(sql)) || tokens_within(
        bytes_of(sql),
        0,
        (usize::MAX - offset) as nat,
    )
}

/// The text `renumbered(offset)` gives.
pub open spec fn renumbered_text(c: CompiledSql, offset: nat) -> Seq<char> {
    renumber_seq(c.sql@, c.binds@.len(), offset)
}

/// What `renumbered(offset)` needs so that no shifted number overflows.
pub open spec fn renumber_ok(c: CompiledSql, offset: nat) -> bool {
    renumber_seq_ok(c.sql@, c.binds@.len(), offset)
}

fn contains_dollar(bytes: &[u8]) -> (r: bool)
    ensures
        r == has_dollar(bytes@),
{
    let mut i: usize = 0;
    while i < bytes.len()
        invariant
            i <= bytes@.len(),
            forall|t: int| 0 <= t < i ==> bytes@[t] != 36,
        decreases bytes@.len() - i,
    {
        if bytes[i] == 36u8 {
            return true;
        }
        i = i + 1;
    }
    false
}

impl CompiledSql {
    /// Returns a copy of this SQL with every `$n` placeholder shifted by `offset`.
    ///
    /// This is used when a compiled subquery is embedded in a larger statement
    /// and its placeholders must continue the outer statement's numbering.
    /// `?`-style placeholders are left unchanged because they are not numbered.
    pub fn renumbered(&self, offset: usize) -> (r: Self)
        requires
            renumber_ok(*self, offset as nat),
        ensures
            r.sql@ == renumbered_text(*self, offset as nat),
            views_of(r.binds@) == views_of(self.binds@),
    {
        let bytes = sql_bytes(&self.sql);
        if offset == 0 || self.binds.len() == 0 || !contains_dollar(bytes) {
            return self.clone();
        }
        let mut sql = String::new();
        push_shifted(&mut sql, bytes, offset);
        proof {
            assert(Seq::<char>::empty() + shift_text(bytes@, offset as nat) =~= shift_text(
                bytes@,
                offset as nat,
            ));
        }
        CompiledSql { sql, binds: copy_values(&self.binds) }
    }
}

// ---------------------------------------------------------------------------
// Filter rendering
// ---------------------------------------------------------------------------

/// `"table"."column"` in the dialect's quoting.
pub open spec fn qcol(d: Dialect, table: Seq<char>, column: Seq<char>) -> Seq<char> {
    quoted(d, table) + "."@ + quoted(d, column)
}

/// The SQL spelling of a comparison operator on dialect `d`: a
/// case-insensitive match is `ILIKE` on Postgres and `LIKE` elsewhere.
pub open spec fn op_text(d: Dialect, op: CmpOp) -> Seq<char> {
    match op {
        CmpOp::Eq => "="@,
        CmpOp::Ne => "!="@,
        CmpOp::Gt => ">"@,
        CmpOp::Gte => ">="@,
        CmpOp::Lt => "<"@,
        CmpOp::Lte => "<="@,
        CmpOp::Like => "LIKE"@,
        CmpOp::Ilike => if d is Postgres {
            "ILIKE"@
        } else {
            "LIKE"@
        },
    }
}

/// The markers of `n` consecutive bind parameters starting at position `k`.
pub open spec fn placeholder_list(d: Dialect, k: nat, n: nat) -> Seq<Seq<char>> {
    Seq::new(n, |i: int| placeholder_text(d, k + i as nat))
}

/// The text of a raw fragment: each part followed by the marker of its bind.
pub open spec fn raw_text(d: Dialect, parts: Seq<String>, nb: nat, k: nat) -> Seq<char>
    decreases parts.len(),
{
    if parts.len() == 0 {
        Seq::empty()
    } else {
        let i = (parts.len() - 1) as nat;
        raw_text(d, parts.drop_last(), nb, k) + parts.last()@ + if i < nb {
            placeholder_text(d, (k + i) as nat)
        } else {
            Seq::empty()
        }
    }
}

/// The number of binds a raw fragment contributes.
pub open spec fn raw_bind_count(raw: RawFragment) -> nat {
    if raw.spec_parts().len() < raw.spec_binds().len() {
        raw.spec_parts().len()
    } else {
        raw.spec_binds().len()
    }
}

/// How a compiled subquery is spliced in when `k` binds precede it.
pub open spec fn subquery_text(d: Dialect, c: CompiledSql, k: nat) -> Seq<char> {
    if numbered(d) {
        shift_text(bytes_of(c.sql@), k)
    } else {
        c.sql@
    }
}

/// What splicing a subquery needs: on numbered dialects every marker stays
/// representable after the shift by `k`, and with no earlier bind none is
/// `$0`.
pub open spec fn subquery_ok(d: Dialect, c: CompiledSql, k: nat) -> bool {
    numbered(d) ==> tokens_within(
        bytes_of(c.sql@),
        if k == 0 {
            1
        } else {
            0
        },
        (usize::MAX - k) as nat,
    )
}

/// The rendering of `node` after `k` earlier binds: the SQL text, the binds
/// it adds, and whether every subquery in it can be spliced in.
pub open spec fn filter_sql(d: Dialect, node: FilterNode, k: nat) -> (Seq<char>, Seq<ValueView>, bool)
    decreases node,
{
    match node {
        FilterNode::Cmp { table, column, op, value } => {
            let head = qcol(d, table@, column@) + " "@ + op_text(d, op) + " "@;
            if (value is Null) && (op is Eq) {
                (head + "IS NULL"@, Seq::empty(), true)
            } else if (value is Null) && (op is Ne) {
                (head + "IS NOT NULL"@, Seq::empty(), true)
            } else {
                (head + placeholder_text(d, k), seq![value@], true)
            }
        },
        FilterNode::Between { table, column, lo, hi } => (
            qcol(d, table@, column@) + " BETWEEN "@ + placeholder_text(d, k) + " AND "@
                + placeholder_text(d, k + 1),
            seq![lo@, hi@],
            true,
        ),
        FilterNode::Null { table, column, negated } => (
            qcol(d, table@, column@) + if negated {
                " IS NOT NULL"@
            } else {
                " IS NULL"@
            },
            Seq::empty(),
            true,
        ),
        FilterNode::In { table, column, values, negated } => (
            qcol(d, table@, column@) + if negated {
                " NOT IN ("@
            } else {
                " IN ("@
            } + sep_join(placeholder_list(d, k, values@.len()), ", "@) + ")"@,
            views_of(values@),
            true,
        ),
        FilterNode::InSubquery { table, column, subquery, negated } => (
            qcol(d, table@, column@) + if negated {
                " NOT IN ("@
            } else {
                " IN ("@
            } + subquery_text(d, subquery, k) + ")"@,
            views_of(subquery.binds@),
            subquery_ok(d, subquery, k),
        ),
        FilterNode::ColumnCmp { left_table, left_col, op, right_table, right_col } => (
            qcol(d, left_table@, left_col@) + " "@ + op_text(d, op) + " "@ + qcol(
                d,
                right_table@,
                right_col@,
            ),
            Seq::empty(),
            true,
        ),
        FilterNode::And(nodes) => {
            proof {
                broadcast use vstd::std_specs::vec::axiom_vec_decreases_to_view;

            }
            if nodes@.len() == 0 {
                ("TRUE"@, Seq::empty(), true)
            } else if nodes@.len() == 1 {
                filter_sql(d, nodes@[0], k)
            } else {
                let r = list_sql(d, nodes@, " AND "@, k);
                ("("@ + r.0 + ")"@, r.1, r.2)
            }
        },
        FilterNode::Or(nodes) => {
            proof {
                broadcast use vstd::std_specs::vec::axiom_vec_decreases_to_view;

            }
            if nodes@.len() == 0 {
                ("FALSE"@, Seq::empty(), true)
            } else if nodes@.len() == 1 {
                filter_sql(d, nodes@[0], k)
            } else {
                let r = list_sql(d, nodes@, " OR "@, k);
                ("("@ + r.0 + ")"@, r.1, r.2)
            }
        },
        FilterNode::Not(inner) => {
            let r = filter_sql(d, *inner, k);
            ("NOT ("@ + r.0 + ")"@, r.1, r.2)
        },
        FilterNode::Exists { child_table, child_col, parent_table, parent_col, filter, negated } => {
            let head = if negated {
                "NOT "@
            } else {
                Seq::empty()
            } + "EXISTS (SELECT 1 FROM "@ + quoted(d, child_table@) + " WHERE "@ + qcol(
                d,
                child_table@,
                child_col@,
            ) + " = "@ + qcol(d, parent_table@, parent_col@);
            if crate::filter::is_trivial(*filter) {
                (head + ")"@, Seq::empty(), true)
            } else {
                let r = filter_sql(d, *filter, k);
                (head + " AND "@ + r.0 + ")"@, r.1, r.2)
            }
        },
        FilterNode::ExistsSubquery { subquery, negated } => (
            if negated {
                "NOT "@
            } else {
                Seq::empty()
            } + "EXISTS ("@ + subquery_text(d, subquery, k) + ")"@,
            views_of(subquery.binds@),
            subquery_ok(d, subquery, k),
        ),
        FilterNode::Raw(raw) => (
            raw_text(d, raw.spec_parts(), raw.spec_binds().len(), k),
            views_of(raw.spec_binds().take(raw_bind_count(raw) as int)),
            true,
        ),
    }
}

/// The rendering of `nodes` joined by `sep` after `k` earlier binds.
pub open spec fn list_sql(d: Dialect, nodes: Seq<FilterNode>, sep: Seq<char>, k: nat) -> (
    Seq<char>,
    Seq<ValueView>,
    bool,
)
    decreases nodes,
{
    if nodes.len() == 0 {
        (Seq::empty(), Seq::empty(), true)
    } else {
        let p = list_sql(d, nodes.drop_last(), sep, k);
        let l = filter_sql(d, nodes.last(), k + p.1.len());
        (
            if nodes.len() == 1 {
                l.0
            } else {
                p.0 + sep + l.0
            },
            p.1 + l.1,
            p.2 && l.2,
        )
    }
}

/// `NOT IN` negates: a negated `IN` filter renders as the column, the words
/// ` NOT IN (`, its placeholders and `)`, and an unnegated one with ` IN (`
/// in their place; the two texts always differ.
pub proof fn law_not_in_negates(d: Dialect, table: &'static str, column: &'static str, values: Vec<Value>, k: nat)
    ensures
        ({
            let rest = sep_join(placeholder_list(d, k, values@.len()), ", "@) + ")"@;
            let neg = filter_sql(d, FilterNode::In { table, column, values, negated: true }, k).0;
            let pos = filter_sql(d, FilterNode::In { table, column, values, negated: false }, k).0;
            &&& neg == qcol(d, table@, column@) + " NOT IN ("@ + rest
            &&& pos == qcol(d, table@, column@) + " IN ("@ + rest
            &&& neg != pos
        }),
{
    reveal_strlit(" NOT IN (");
    reveal_strlit(" IN (");
    let q = qcol(d, table@, column@);
    let sj = sep_join(placeholder_list(d, k, values@.len()), ", "@);
    let rest = sj + ")"@;
    let neg = filter_sql(d, FilterNode::In { table, column, values, negated: true }, k).0;
    let pos = filter_sql(d, FilterNode::In { table, column, values, negated: false }, k).0;
    assert(neg =~= q + " NOT IN ("@ + rest);
    assert(pos =~= q + " IN ("@ + rest);
    assert(neg[q.len() + 1int] == 'N');
    assert(pos[q.len() + 1int] == 'I');
}

/// Two node lists render alike when their nodes do, one for one.
pub proof fn lemma_list_sql_alike(a: Seq<FilterNode>, b: Seq<FilterNode>)
    requires
        a.len() == b.len(),
        forall|j: int, d: Dialect, k: nat|
            0 <= j < a.len() ==> #[trigger] filter_sql(d, a[j], k) == filter_sql(d, b[j], k),
    ensures
        forall|d: Dialect, sep: Seq<char>, k: nat| #[trigger] list_sql(d, a, sep, k) == list_sql(d, b, sep, k),
    decreases a.len(),
{
    if a.len() > 0 {
        let a0 = a.drop_last();
        let b0 = b.drop_last();
        assert forall|j: int, d: Dialect, k: nat|
            0 <= j < a0.len() implies #[trigger] filter_sql(d, a0[j], k) == filter_sql(d, b0[j], k) by {
            assert(a0[j] == a[j] && b0[j] == b[j]);
            assert(filter_sql(d, a[j], k) == filter_sql(d, b[j], k));
        }
        lemma_list_sql_alike(a0, b0);
        assert forall|d: Dialect, sep: Seq<char>, k: nat| #[trigger] list_sql(d, a, sep, k) == list_sql(d, b, sep, k) by {
            let p = list_sql(d, a0, sep, k);
            assert(p == list_sql(d, b0, sep, k));
            assert(filter_sql(d, a[a.len() - 1], k + p.1.len()) == filter_sql(d, b[b.len() - 1], k + p.1.len()));
        }
    }
}

/// `f` and `g` are the same filter up to the values they bind: the same
/// tables, columns, operators and raw text, the same number of bound values,
/// and `NULL` compared in the same places; only the bound values may differ.
pub open spec fn same_shape(f: FilterNode, g: FilterNode) -> bool
    decreases f,
{
    match (f, g) {
        (
            FilterNode::Cmp { table, column, op, value },
            FilterNode::Cmp { table: t2, column: c2, op: o2, value: v2 },
        ) => table == t2 && column == c2 && op == o2 && (value is Null) == (v2 is Null),
        (FilterNode::Between { table, column, .. }, FilterNode::Between { table: t2, column: c2, .. }) => table
            == t2 && column == c2,
        (FilterNode::Null { .. }, FilterNode::Null { .. }) => f == g,
        (
            FilterNode::In { table, column, values, negated },
            FilterNode::In { table: t2, column: c2, values: v2, negated: n2 },
        ) => table == t2 && column == c2 && negated == n2 && values@.len() == v2@.len(),
        (
            FilterNode::InSubquery { table, column, subquery, negated },
            FilterNode::InSubquery { table: t2, column: c2, subquery: s2, negated: n2 },
        ) => table == t2 && column == c2 && negated == n2 && subquery.sql@ == s2.sql@ && subquery.binds@.len()
            == s2.binds@.len(),
        (FilterNode::ColumnCmp { .. }, FilterNode::ColumnCmp { .. }) => f == g,
        (FilterNode::And(a), FilterNode::And(b)) => {
            proof {
                broadcast use vstd::std_specs::vec::axiom_vec_decreases_to_view;

            }
            same_shapes(a@, b@)
        },
        (FilterNode::Or(a), FilterNode::Or(b)) => {
            proof {
                broadcast use vstd::std_specs::vec::axiom_vec_decreases_to_view;

            }
            same_shapes(a@, b@)
        },
        (FilterNode::Not(a), FilterNode::Not(b)) => same_shape(*a, *b),
        (
            FilterNode::Exists { child_table, child_col, parent_table, parent_col, filter, negated },
            FilterNode::Exists {
                child_table: ct2,
                child_col: cc2,
                parent_table: pt2,
                parent_col: pc2,
                filter: f2,
                negated: n2,
            },
        ) => child_table == ct2 && child_col == cc2 && parent_table == pt2 && parent_col == pc2 && negated == n2
            && same_shape(*filter, *f2),
        (FilterNode::ExistsSubquery { subquery, negated }, FilterNode::ExistsSubquery { subquery: s2, negated: n2 }) =>
            negated == n2 && subquery.sql@ == s2.sql@ && subquery.binds@.len() == s2.binds@.len(),
        (FilterNode::Raw(r1), FilterNode::Raw(r2)) => r1.spec_parts() == r2.spec_parts() && r1.spec_binds().len()
            == r2.spec_binds().len(),
        _ => false,
    }
}

/// `a` and `b` are lists of the same length whose nodes have the same
/// shape, one for one.
pub open spec fn same_shapes(a: Seq<FilterNode>, b: Seq<FilterNode>) -> bool
    decreases a,
{
    if a.len() == 0 {
        b.len() == 0
    } else {
        b.len() == a.len() && same_shapes(a.drop_last(), b.drop_last()) && same_shape(a.last(), b.last())
    }
}

/// No bound value ever reaches the SQL text: two filters of the same shape
/// compile to the same text, with as many binds each, whatever the values
/// they carry and however many binds precede them.
pub proof fn law_text_independent_of_values(d: Dialect, f: FilterNode, g: FilterNode, k: nat)
    requires
        same_shape(f, g),
    ensures
        filter_sql(d, f, k).0 == filter_sql(d, g, k).0,
        filter_sql(d, f, k).1.len() == filter_sql(d, g, k).1.len(),
        filter_sql(d, f, k).2 == filter_sql(d, g, k).2,
    decreases f,
{
    match (f, g) {
        (FilterNode::In { values, .. }, FilterNode::In { values: v2, .. }) => {
            crate::value::lemma_views_of_index(values@);
            crate::value::lemma_views_of_index(v2@);
        },
        (FilterNode::InSubquery { subquery, .. }, FilterNode::InSubquery { subquery: s2, .. }) => {
            crate::value::lemma_views_of_index(subquery.binds@);
            crate::value::lemma_views_of_index(s2.binds@);
        },
        (FilterNode::ExistsSubquery { subquery, .. }, FilterNode::ExistsSubquery { subquery: s2, .. }) => {
            crate::value::lemma_views_of_index(subquery.binds@);
            crate::value::lemma_views_of_index(s2.binds@);
        },
        (FilterNode::Raw(r1), FilterNode::Raw(r2)) => {
            crate::value::lemma_views_of_index(r1.spec_binds().take(raw_bind_count(r1) as int));
            crate::value::lemma_views_of_index(r2.spec_binds().take(raw_bind_count(r2) as int));
        },
        (FilterNode::And(a), FilterNode::And(b)) => {
            broadcast use vstd::std_specs::vec::axiom_vec_decreases_to_view;

            assert(same_shapes(a@, b@));
            lemma_same_shapes_len(a@, b@);
            if a@.len() == 1 {
                assert(same_shape(a@.last(), b@.last()));
                assert(a@.last() == a@[0] && b@.last() == b@[0]);
                law_text_independent_of_values(d, a@[0], b@[0], k);
            } else if a@.len() > 1 {
                lemma_list_same_shape(d, a@, b@, " AND "@, k);
            }
        },
        (FilterNode::Or(a), FilterNode::Or(b)) => {
            broadcast use vstd::std_specs::vec::axiom_vec_decreases_to_view;

            assert(same_shapes(a@, b@));
            lemma_same_shapes_len(a@, b@);
            if a@.len() == 1 {
                assert(same_shape(a@.last(), b@.last()));
                assert(a@.last() == a@[0] && b@.last() == b@[0]);
                law_text_independent_of_values(d, a@[0], b@[0], k);
            } else if a@.len() > 1 {
                lemma_list_same_shape(d, a@, b@, " OR "@, k);
            }
        },
        (FilterNode::Not(a), FilterNode::Not(b)) => {
            law_text_independent_of_values(d, *a, *b, k);
        },
        (FilterNode::Exists { filter, .. }, FilterNode::Exists { filter: f2, .. }) => {
            law_text_independent_of_values(d, *filter, *f2, k);
            lemma_same_shape_trivial(*filter, *f2);
        },
        _ => {},
    }
}

/// Of two filters of the same shape, both or neither is the empty
/// conjunction.
proof fn lemma_same_shape_trivial(f: FilterNode, g: FilterNode)
    requires
        same_shape(f, g),
    ensures
        crate::filter::is_trivial(f) == crate::filter::is_trivial(g),
{
    match (f, g) {
        (FilterNode::And(a), FilterNode::And(b)) => {
            lemma_same_shapes_len(a@, b@);
        },
        _ => {},
    }
}

/// Lists of the same shape have the same length.
proof fn lemma_same_shapes_len(a: Seq<FilterNode>, b: Seq<FilterNode>)
    requires
        same_shapes(a, b),
    ensures
        a.len() == b.len(),
{
}

/// Lists of the same shape render to the same text with as many binds.
proof fn lemma_list_same_shape(d: Dialect, a: Seq<FilterNode>, b: Seq<FilterNode>, sep: Seq<char>, k: nat)
    requires
        same_shapes(a, b),
    ensures
        a.len() == b.len(),
        list_sql(d, a, sep, k).0 == list_sql(d, b, sep, k).0,
        list_sql(d, a, sep, k).1.len() == list_sql(d, b, sep, k).1.len(),
        list_sql(d, a, sep, k).2 == list_sql(d, b, sep, k).2,
    decreases a,
{
    if a.len() > 0 {
        lemma_list_same_shape(d, a.drop_last(), b.drop_last(), sep, k);
        let p = list_sql(d, a.drop_last(), sep, k);
        law_text_independent_of_values(d, a.last(), b.last(), k + p.1.len());
    }
}

/// The children of a conjunction or disjunction.
pub open spec fn junction_children(n: FilterNode) -> Seq<FilterNode> {
    match n {
        FilterNode::And(c) => c@,
        FilterNode::Or(c) => c@,
        _ => Seq::empty(),
    }
}

pub(crate) fn copy_children(nodes: &Vec<FilterNode>, Ghost(parent): Ghost<FilterNode>) -> (r: Vec<FilterNode>)
    requires
        parent is And || parent is Or,
        junction_children(parent) == nodes@,
    ensures
        r@.len() == nodes@.len(),
        forall|j: int, d: Dialect, k: nat|
            0 <= j < r@.len() ==> #[trigger] filter_sql(d, r@[j], k) == filter_sql(d, nodes@[j], k),
    decreases parent, 0nat,
{
    let mut out: Vec<FilterNode> = Vec::new();
    let mut i: usize = 0;
    while i < nodes.len()
        invariant
            i <= nodes@.len(),
            out@.len() == i,
            parent is And || parent is Or,
            junction_children(parent) == nodes@,
            forall|j: int, d: Dialect, k: nat|
                0 <= j < i ==> #[trigger] filter_sql(d, out@[j], k) == filter_sql(d, nodes@[j], k),
        decreases nodes@.len() - i,
    {
        proof {
            match parent {
                FilterNode::And(c) => {
                    assert(decreases_to!(parent => c));
                    vstd::std_specs::vec::axiom_vec_index_decreases(c, i as int);
                },
                FilterNode::Or(c) => {
                    assert(decreases_to!(parent => c));
                    vstd::std_specs::vec::axiom_vec_index_decreases(c, i as int);
                },
                _ => {},
            }
        }
        let c = copy_node(&nodes[i]);
        out.push(c);
        i = i + 1;
    }
    out
}

fn copy_junction(n: &FilterNode) -> (r: FilterNode)
    requires
        n is And || n is Or,
    ensures
        is_trivial(r) == is_trivial(*n),
        forall|d: Dialect, k: nat| #[trigger] filter_sql(d, r, k) == filter_sql(d, *n, k),
    decreases *n, 1nat,
{
    match n {
        FilterNode::And(nodes) => {
            let c = copy_children(nodes, Ghost(*n));
            let r = FilterNode::And(c);
            proof {
                lemma_list_sql_alike(c@, nodes@);
                assert forall|d: Dialect, k: nat| #[trigger] filter_sql(d, r, k) == filter_sql(d, *n, k) by {
                    if c@.len() == 1 {
                        assert(filter_sql(d, c@[0], k) == filter_sql(d, nodes@[0], k));
                    } else if c@.len() > 1 {
                        assert(list_sql(d, c@, " AND "@, k) == list_sql(d, nodes@, " AND "@, k));
                    }
                }
            }
            r
        },
        FilterNode::Or(nodes) => {
            let c = copy_children(nodes, Ghost(*n));
            let r = FilterNode::Or(c);
            proof {
                lemma_list_sql_alike(c@, nodes@);
                assert forall|d: Dialect, k: nat| #[trigger] filter_sql(d, r, k) == filter_sql(d, *n, k) by {
                    if c@.len() == 1 {
                        assert(filter_sql(d, c@[0], k) == filter_sql(d, nodes@[0], k));
                    } else if c@.len() > 1 {
                        assert(list_sql(d, c@, " OR "@, k) == list_sql(d, nodes@, " OR "@, k));
                    }
                }
            }
            r
        },
        _ => FilterNode::And(Vec::new()),
    }
}

/// A copy of `n` that compiles to the same SQL.
#[verifier::rlimit(60)]
#[verifier::spinoff_prover]
pub fn copy_node(n: &FilterNode) -> (r: FilterNode)
    ensures
        is_trivial(r) == is_trivial(*n),
        forall|d: Dialect, k: nat| #[trigger] filter_sql(d, r, k) == filter_sql(d, *n, k),
    decreases *n, 2nat,
{
    match n {
        FilterNode::Cmp { table, column, op, value } => {
            let c = copy_value(value);
            proof {
                assert((c is Null) == (value is Null)) by {
                    if c is Null {
                        assert(value@ == ValueView::Null);
                    }
                    if value is Null {
                        assert(c@ == ValueView::Null);
                    }
                }
            }
            let r = FilterNode::Cmp { table: *table, column: *column, op: *op, value: c };
            proof {
                assert forall|d: Dialect, k: nat| #[trigger] filter_sql(d, r, k) == filter_sql(d, *n, k) by {
                    if (c is Null) && (*op is Eq) {
                    } else if (c is Null) && (*op is Ne) {
                    } else {
                        assert(seq![c@] == seq![value@]);
                    }
                }
            }
            r
        },
        FilterNode::Between { table, column, lo, hi } => {
            let r = FilterNode::Between {
                table: *table,
                column: *column,
                lo: copy_value(lo),
                hi: copy_value(hi),
            };
            proof {
                assert forall|d: Dialect, k: nat| #[trigger] filter_sql(d, r, k) == filter_sql(d, *n, k) by {}
            }
            r
        },
        FilterNode::Null { table, column, negated } => FilterNode::Null {
            table: *table,
            column: *column,
            negated: *negated,
        },
        FilterNode::In { table, column, values, negated } => {
            let c = copy_values(values);
            proof {
                lemma_views_of_index(c@);
                lemma_views_of_index(values@);
            }
            let r = FilterNode::In { table: *table, column: *column, values: c, negated: *negated };
            proof {
                assert forall|d: Dialect, k: nat| #[trigger] filter_sql(d, r, k) == filter_sql(d, *n, k) by {}
            }
            r
        },
        FilterNode::InSubquery { table, column, subquery, negated } => {
            let c = subquery.clone();
            proof {
                lemma_views_of_index(c.binds@);
                lemma_views_of_index(subquery.binds@);
            }
            let r = FilterNode::InSubquery { table: *table, column: *column, subquery: c, negated: *negated };
            proof {
                assert forall|d: Dialect, k: nat| #[trigger] filter_sql(d, r, k) == filter_sql(d, *n, k) by {}
            }
            r
        },
        FilterNode::ColumnCmp { left_table, left_col, op, right_table, right_col } =>
            FilterNode::ColumnCmp {
            left_table: *left_table,
            left_col: *left_col,
            op: *op,
            right_table: *right_table,
            right_col: *right_col,
        },
        FilterNode::Exists { child_table, child_col, parent_table, parent_col, filter, negated } => {
            let inner = copy_node(filter);
            let r = FilterNode::Exists {
                child_table: *child_table,
                child_col: *child_col,
                parent_table: *parent_table,
                parent_col: *parent_col,
                filter: Box::new(inner),
                negated: *negated,
            };
            proof {
                let f: FilterNode = **filter;
                assert forall|d: Dialect, k: nat| #[trigger] filter_sql(d, r, k) == filter_sql(d, *n, k) by {
                    assert(filter_sql(d, inner, k) == filter_sql(d, f, k));
                }
            }
            r
        },
        FilterNode::ExistsSubquery { subquery, negated } => {
            let c = subquery.clone();
            proof {
                lemma_views_of_index(c.binds@);
                lemma_views_of_index(subquery.binds@);
            }
            let r = FilterNode::ExistsSubquery { subquery: c, negated: *negated };
            proof {
                assert forall|d: Dialect, k: nat| #[trigger] filter_sql(d, r, k) == filter_sql(d, *n, k) by {}
            }
            r
        },
        FilterNode::And(_) => copy_junction(n),
        FilterNode::Or(_) => copy_junction(n),
        FilterNode::Not(inner) => {
            let c = copy_node(inner);
            let r = FilterNode::Not(Box::new(c));
            proof {
                let f: FilterNode = **inner;
                assert forall|d: Dialect, k: nat| #[trigger] filter_sql(d, r, k) == filter_sql(d, *n, k) by {
                    assert(filter_sql(d, c, k) == filter_sql(d, f, k));
                }
            }
            r
        },
        FilterNode::Raw(raw) => {
            let r = raw.duplicate();
            proof {
                let m = raw_bind_count(*raw);
                lemma_views_of_index(r.spec_binds());
                lemma_views_of_index(raw.spec_binds());
                lemma_views_of_index(r.spec_binds().take(m as int));
                lemma_views_of_index(raw.spec_binds().take(m as int));
                let a = r.spec_binds();
                let b = raw.spec_binds();
                assert forall|i: int| 0 <= i < m implies #[trigger] views_of(a.take(m as int))[i]
                    == views_of(b.take(m as int))[i] by {
                    assert(views_of(a)[i] == views_of(b)[i]);
                    assert(a.take(m as int)[i] == a[i]);
                    assert(b.take(m as int)[i] == b[i]);
                }
                assert(views_of(a.take(m as int)) =~= views_of(b.take(m as int)));
            }
            let r = FilterNode::Raw(r);
            proof {
                assert forall|d: Dialect, k: nat| #[trigger] filter_sql(d, r, k) == filter_sql(d, *n, k) by {}
            }
            r
        },
    }
}

impl<M> Clone for crate::filter::Filter<M> {
    /// A copy whose predicate compiles to the same SQL.
    fn clone(&self) -> (r: Self)
        ensures
            is_trivial(r.node) == is_trivial(self.node),
            forall|d: Dialect, k: nat| #[trigger] filter_sql(d, r.node, k) == filter_sql(d, self.node, k),
    {
        crate::filter::Filter { node: copy_node(&self.node), _marker: std::marker::PhantomData }
    }
}

impl Clone for FilterNode {
    /// A copy that compiles to the same SQL.
    fn clone(&self) -> (r: Self)
        ensures
            is_trivial(r) == is_trivial(*self),
            forall|d: Dialect, k: nat| #[trigger] filter_sql(d, r, k) == filter_sql(d, *self, k),
    {
        copy_node(self)
    }
}

/// The statement being assembled: text, binds and target dialect.
pub struct Compiler {
    dialect: Dialect,
    sql: String,
    binds: Vec<Value>,
}

impl Compiler {
    /// The dialect.
    pub closed spec fn spec_dialect(&self) -> Dialect {
        self.dialect
    }

    /// The text so far.
    pub closed spec fn spec_sql(&self) -> Seq<char> {
        self.sql@
    }

    /// The binds so far.
    pub closed spec fn spec_binds(&self) -> Seq<ValueView> {
        views_of(self.binds@)
    }

    /// An empty statement for `dialect`.
    pub fn new(dialect: Dialect) -> (c: Self)
        ensures
            c.spec_dialect() == dialect,
            c.spec_sql() == Seq::<char>::empty(),
            c.spec_binds() == Seq::<ValueView>::empty(),
    {
        Compiler { dialect, sql: String::new(), binds: Vec::new() }
    }

    /// The finished statement.
    pub fn finish(self) -> (r: CompiledSql)
        ensures
            r.sql@ == self.spec_sql(),
            views_of(r.binds@) == self.spec_binds(),
    {
        CompiledSql { sql: self.sql, binds: self.binds }
    }

    /// Appends literal text.
    pub fn push_str(&mut self, s: &str)
        ensures
            final(self).spec_dialect() == old(self).spec_dialect(),
            final(self).spec_sql() == old(self).spec_sql() + s@,
            final(self).spec_binds() == old(self).spec_binds(),
    {
        self.sql.append(s);
    }

    /// Appends a quoted identifier.
    pub fn push_quoted(&mut self, s: &str)
        ensures
            final(self).spec_dialect() == old(self).spec_dialect(),
            final(self).spec_sql() == old(self).spec_sql() + quoted(old(self).spec_dialect(), s@),
            final(self).spec_binds() == old(self).spec_binds(),
    {
        self.dialect.push_quoted(&mut self.sql, s);
    }

    /// Appends `"table"."column"`.
    pub fn push_column(&mut self, table: &str, column: &str)
        ensures
            final(self).spec_dialect() == old(self).spec_dialect(),
            final(self).spec_sql() == old(self).spec_sql() + qcol(
                old(self).spec_dialect(),
                table@,
                column@,
            ),
            final(self).spec_binds() == old(self).spec_binds(),
    {
        self.dialect.push_quoted(&mut self.sql, table);
        self.sql.append(".");
        self.dialect.push_quoted(&mut self.sql, column);
        proof {
            assert(self.sql@ =~= old(self).sql@ + qcol(self.dialect, table@, column@));
        }
    }

    /// Appends a decimal number.
    pub fn push_number(&mut self, n: u64)
        ensures
            final(self).spec_dialect() == old(self).spec_dialect(),
            final(self).spec_sql() == old(self).spec_sql() + decimal(n as nat),
            final(self).spec_binds() == old(self).spec_binds(),
    {
        push_decimal(&mut self.sql, n);
    }

    /// Binds `value` and appends its marker.
    pub fn push_bind(&mut self, value: Value)
        ensures
            final(self).spec_dialect() == old(self).spec_dialect(),
            final(self).spec_sql() == old(self).spec_sql() + placeholder_text(
                old(self).spec_dialect(),
                old(self).spec_binds().len(),
            ),
            final(self).spec_binds() == old(self).spec_binds().push(value@),
    {
        proof {
            lemma_views_of_index(self.binds@);
        }
        let ghost v = value@;
        self.binds.push(value);
        let idx = self.binds.len() - 1;
        self.dialect.push_placeholder(&mut self.sql, idx);
        proof {
            assert(self.binds@.drop_last() =~= old(self).binds@);
        }
    }

    /// Splices a compiled subquery, continuing this statement's numbering.
    pub fn push_subquery(&mut self, subquery: &CompiledSql)
        requires
            subquery_ok(old(self).spec_dialect(), *subquery, old(self).spec_binds().len()),
        ensures
            final(self).spec_dialect() == old(self).spec_dialect(),
            final(self).spec_sql() == old(self).spec_sql() + subquery_text(
                old(self).spec_dialect(),
                *subquery,
                old(self).spec_binds().len(),
            ),
            final(self).spec_binds() == old(self).spec_binds() + views_of(subquery.binds@),
    {
        proof {
            lemma_views_of_index(self.binds@);
        }
        if !self.dialect.numbered_placeholders() {
            self.sql.append(subquery.sql.as_str());
        } else {
            let offset = self.binds.len();
            let bytes = sql_bytes(&subquery.sql);
            proof {
                lemma_tokens_within_widen(
                    bytes@,
                    if offset == 0 {
                        1
                    } else {
                        0
                    },
                    (usize::MAX - offset) as nat,
                    0,
                    (usize::MAX - offset) as nat,
                );
            }
            push_shifted(&mut self.sql, bytes, offset);
        }
        let mut extra = copy_values(&subquery.binds);
        let ghost b0 = self.binds@;
        let ghost e = extra@;
        self.binds.append(&mut extra);
        proof {
            lemma_views_of_add(b0, e);
        }
    }
}


/// Unfolding `list_sql` one element further.
pub proof fn lemma_list_sql_step(d: Dialect, nodes: Seq<FilterNode>, sep: Seq<char>, k: nat, i: int)
    requires
        0 <= i < nodes.len(),
    ensures
        ({
            let p = list_sql(d, nodes.take(i), sep, k);
            let l = filter_sql(d, nodes[i], k + p.1.len());
            list_sql(d, nodes.take(i + 1), sep, k) == (
                if i == 0 {
                    l.0
                } else {
                    p.0 + sep + l.0
                },
                p.1 + l.1,
                p.2 && l.2,
            )
        }),
{
    assert(nodes.take(i + 1).drop_last() =~= nodes.take(i));
    assert(nodes.take(i + 1).last() == nodes[i]);
}

/// Every prefix of an acceptable list is acceptable.
pub proof fn lemma_list_sql_prefix_ok(d: Dialect, nodes: Seq<FilterNode>, sep: Seq<char>, k: nat, i: int)
    requires
        0 <= i <= nodes.len(),
        list_sql(d, nodes, sep, k).2,
    ensures
        list_sql(d, nodes.take(i), sep, k).2,
    decreases nodes.len(),
{
    if i == nodes.len() {
        assert(nodes.take(i) =~= nodes);
    } else {
        lemma_list_sql_prefix_ok(d, nodes.drop_last(), sep, k, i);
        assert(nodes.drop_last().take(i) =~= nodes.take(i));
    }
}

impl Compiler {
    /// Appends the SQL spelling of `op`.
    pub fn push_op(&mut self, op: CmpOp)
        ensures
            final(self).spec_dialect() == old(self).spec_dialect(),
            final(self).spec_sql() == old(self).spec_sql() + op_text(old(self).spec_dialect(), op),
            final(self).spec_binds() == old(self).spec_binds(),
    {
        let s = match op {
            CmpOp::Eq => "=",
            CmpOp::Ne => "!=",
            CmpOp::Gt => ">",
            CmpOp::Gte => ">=",
            CmpOp::Lt => "<",
            CmpOp::Lte => "<=",
            CmpOp::Like => "LIKE",
            CmpOp::Ilike => match self.dialect {
                Dialect::Postgres => "ILIKE",
                _ => "LIKE",
            },
        };
        self.push_str(s);
    }

    /// Appends `nodes` joined by `sep`.
    fn push_list(&mut self, nodes: &Vec<FilterNode>, sep: &str, Ghost(parent): Ghost<FilterNode>)
        requires
            list_sql(old(self).spec_dialect(), nodes@, sep@, old(self).spec_binds().len()).2,
            parent == FilterNode::And(*nodes) || parent == FilterNode::Or(*nodes),
        ensures
            ({
                let r = list_sql(old(self).spec_dialect(), nodes@, sep@, old(self).spec_binds().len());
                &&& final(self).spec_dialect() == old(self).spec_dialect()
                &&& final(self).spec_sql() == old(self).spec_sql() + r.0
                &&& final(self).spec_binds() == old(self).spec_binds() + r.1
            }),
        decreases parent, 0nat,
    {
        let ghost d = self.spec_dialect();
        let ghost k = self.spec_binds().len();
        let ghost s0 = self.spec_sql();
        let ghost b0 = self.spec_binds();
        let mut i: usize = 0;
        proof {
            assert(nodes@.take(0) =~= Seq::<FilterNode>::empty());
            assert(s0 + Seq::<char>::empty() =~= s0);
            assert(b0 + Seq::<ValueView>::empty() =~= b0);
        }
        while i < nodes.len()
            invariant
                parent == FilterNode::And(*nodes) || parent == FilterNode::Or(*nodes),
                i <= nodes@.len(),
                self.spec_dialect() == d,
                list_sql(d, nodes@, sep@, k).2,
                ({
                    let p = list_sql(d, nodes@.take(i as int), sep@, k);
                    &&& self.spec_sql() == s0 + p.0
                    &&& self.spec_binds() == b0 + p.1
                    &&& self.spec_binds().len() == k + p.1.len()
                }),
            decreases nodes@.len() - i,
        {
            proof {
                lemma_list_sql_step(d, nodes@, sep@, k, i as int);
                lemma_list_sql_prefix_ok(d, nodes@, sep@, k, i + 1);
            }
            let ghost sa = self.spec_sql();
            let ghost ba = self.spec_binds();
            if i > 0 {
                self.push_str(sep);
            }
            proof {
                if parent is And {
                    assert(decreases_to!(parent => parent->And_0));
                } else {
                    assert(decreases_to!(parent => parent->Or_0));
                }
                assert(decreases_to!(parent => nodes[i as int]));
            }
            self.push_filter(&nodes[i]);
            proof {
                let p = list_sql(d, nodes@.take(i as int), sep@, k);
                let l = filter_sql(d, nodes@[i as int], k + p.1.len());
                if i == 0 {
                    assert(p.0 =~= Seq::<char>::empty());
                    assert(self.spec_sql() =~= s0 + l.0);
                } else {
                    assert(self.spec_sql() =~= s0 + (p.0 + sep@ + l.0));
                }
                assert(self.spec_binds() =~= b0 + (p.1 + l.1));
            }
            i = i + 1;
        }
        proof {
            assert(nodes@.take(nodes@.len() as int) =~= nodes@);
        }
    }

    fn push_cmp_node(&mut self, node: &FilterNode)
        requires
            node is Cmp,
            filter_sql(old(self).spec_dialect(), *node, old(self).spec_binds().len()).2,
        ensures
            ({
                let r = filter_sql(old(self).spec_dialect(), *node, old(self).spec_binds().len());
                &&& final(self).spec_dialect() == old(self).spec_dialect()
                &&& final(self).spec_sql() == old(self).spec_sql() + r.0
                &&& final(self).spec_binds() == old(self).spec_binds() + r.1
            }),
    {
        let ghost d = self.spec_dialect();
        let ghost k = self.spec_binds().len();
        let ghost s0 = self.spec_sql();
        let ghost b0 = self.spec_binds();
        match node {
            FilterNode::Cmp { table, column, op, value } => {
                self.push_column(table, column);
                self.push_str(" ");
                self.push_op(*op);
                self.push_str(" ");
                let ghost head = qcol(d, table@, column@) + " "@ + op_text(d, *op) + " "@;
                proof {
                    assert(self.spec_sql() =~= s0 + head);
                }
                if value.is_null() && matches!(op, CmpOp::Eq) {
                    self.push_str("IS NULL");
                } else if value.is_null() && matches!(op, CmpOp::Ne) {
                    self.push_str("IS NOT NULL");
                } else {
                    self.push_bind(copy_value(value));
                }
                proof {
                    let r = filter_sql(d, *node, k);
                    assert(self.spec_sql() =~= s0 + r.0);
                    assert(self.spec_binds() =~= b0 + r.1);
                }
            },
            _ => {},
        }
    }

    fn push_between_node(&mut self, node: &FilterNode)
        requires
            node is Between,
            filter_sql(old(self).spec_dialect(), *node, old(self).spec_binds().len()).2,
        ensures
            ({
                let r = filter_sql(old(self).spec_dialect(), *node, old(self).spec_binds().len());
                &&& final(self).spec_dialect() == old(self).spec_dialect()
                &&& final(self).spec_sql() == old(self).spec_sql() + r.0
                &&& final(self).spec_binds() == old(self).spec_binds() + r.1
            }),
    {
        let ghost d = self.spec_dialect();
        let ghost k = self.spec_binds().len();
        let ghost s0 = self.spec_sql();
        let ghost b0 = self.spec_binds();
        match node {
            FilterNode::Between { table, column, lo, hi } => {
                self.push_column(table, column);
                self.push_str(" BETWEEN ");
                self.push_bind(copy_value(lo));
                self.push_str(" AND ");
                self.push_bind(copy_value(hi));
                proof {
                    let r = filter_sql(d, *node, k);
                    assert(self.spec_sql() =~= s0 + r.0);
                    assert(self.spec_binds() =~= b0 + r.1);
                }
            },
            _ => {},
        }
    }

    fn push_null_node(&mut self, node: &FilterNode)
        requires
            node is Null,
            filter_sql(old(self).spec_dialect(), *node, old(self).spec_binds().len()).2,
        ensures
            ({
                let r = filter_sql(old(self).spec_dialect(), *node, old(self).spec_binds().len());
                &&& final(self).spec_dialect() == old(self).spec_dialect()
                &&& final(self).spec_sql() == old(self).spec_sql() + r.0
                &&& final(self).spec_binds() == old(self).spec_binds() + r.1
            }),
    {
        let ghost d = self.spec_dialect();
        let ghost k = self.spec_binds().len();
        let ghost s0 = self.spec_sql();
        let ghost b0 = self.spec_binds();
        match node {
            FilterNode::Null { table, column, negated } => {
                self.push_column(table, column);
                if *negated {
                    self.push_str(" IS NOT NULL");
                } else {
                    self.push_str(" IS NULL");
                }
                proof {
                    let r = filter_sql(d, *node, k);
                    assert(self.spec_sql() =~= s0 + r.0);
                    assert(self.spec_binds() =~= b0 + r.1);
                }
            },
            _ => {},
        }
    }

    fn push_in_node(&mut self, node: &FilterNode)
        requires
            node is In,
            filter_sql(old(self).spec_dialect(), *node, old(self).spec_binds().len()).2,
        ensures
            ({
                let r = filter_sql(old(self).spec_dialect(), *node, old(self).spec_binds().len());
                &&& final(self).spec_dialect() == old(self).spec_dialect()
                &&& final(self).spec_sql() == old(self).spec_sql() + r.0
                &&& final(self).spec_binds() == old(self).spec_binds() + r.1
            }),
    {
        let ghost d = self.spec_dialect();
        let ghost k = self.spec_binds().len();
        let ghost s0 = self.spec_sql();
        let ghost b0 = self.spec_binds();
        match node {
            FilterNode::In { table, column, values, negated } => {
                self.push_column(table, column);
                if *negated {
                    self.push_str(" NOT IN (");
                } else {
                    self.push_str(" IN (");
                }
                let ghost s1 = self.spec_sql();
                let mut i: usize = 0;
                proof {
                    assert(placeholder_list(d, k, 0) =~= Seq::<Seq<char>>::empty());
                    assert(values@.take(0) =~= Seq::<Value>::empty());
                    assert(s1 + Seq::<char>::empty() =~= s1);
                    assert(b0 + Seq::<ValueView>::empty() =~= b0);
                }
                while i < values.len()
                    invariant
                        i <= values@.len(),
                        self.spec_dialect() == d,
                        self.spec_sql() == s1 + sep_join(placeholder_list(d, k, i as nat), ", "@),
                        self.spec_binds() == b0 + views_of(values@.take(i as int)),
                        b0.len() == k,
                    decreases values@.len() - i,
                {
                    proof {
                        lemma_views_of_index(values@.take(i as int));
                        lemma_sep_join_push(
                            placeholder_list(d, k, i as nat),
                            ", "@,
                            placeholder_text(d, (k + i) as nat),
                        );
                        assert(placeholder_list(d, k, i as nat).push(placeholder_text(d, (k + i) as nat))
                            =~= placeholder_list(d, k, (i + 1) as nat));
                        assert(values@.take(i + 1).drop_last() =~= values@.take(i as int));
                    }
                    let ghost sa = self.spec_sql();
                    if i > 0 {
                        self.push_str(", ");
                    }
                    self.push_bind(copy_value(&values[i]));
                    proof {
                        if i == 0 {
                            assert(self.spec_sql() =~= s1 + sep_join(
                                placeholder_list(d, k, (i + 1) as nat),
                                ", "@,
                            ));
                        } else {
                            assert(self.spec_sql() =~= s1 + sep_join(
                                placeholder_list(d, k, (i + 1) as nat),
                                ", "@,
                            ));
                        }
                        assert(self.spec_binds() =~= b0 + views_of(values@.take(i + 1)));
                    }
                    i = i + 1;
                }
                self.push_str(")");
                proof {
                    assert(values@.take(values@.len() as int) =~= values@);
                    let r = filter_sql(d, *node, k);
                    assert(self.spec_sql() =~= s0 + r.0);
                    assert(self.spec_binds() =~= b0 + r.1);
                }
            },
            _ => {},
        }
    }

    fn push_in_subquery_node(&mut self, node: &FilterNode)
        requires
            node is InSubquery,
            filter_sql(old(self).spec_dialect(), *node, old(self).spec_binds().len()).2,
        ensures
            ({
                let r = filter_sql(old(self).spec_dialect(), *node, old(self).spec_binds().len());
                &&& final(self).spec_dialect() == old(self).spec_dialect()
                &&& final(self).spec_sql() == old(self).spec_sql() + r.0
                &&& final(self).spec_binds() == old(self).spec_binds() + r.1
            }),
    {
        let ghost d = self.spec_dialect();
        let ghost k = self.spec_binds().len();
        let ghost s0 = self.spec_sql();
        let ghost b0 = self.spec_binds();
        match node {
            FilterNode::InSubquery { table, column, subquery, negated } => {
                self.push_column(table, column);
                if *negated {
                    self.push_str(" NOT IN (");
                } else {
                    self.push_str(" IN (");
                }
                self.push_subquery(subquery);
                self.push_str(")");
                proof {
                    let r = filter_sql(d, *node, k);
                    assert(self.spec_sql() =~= s0 + r.0);
                    assert(self.spec_binds() =~= b0 + r.1);
                }
            },
            _ => {},
        }
    }

    fn push_column_cmp_node(&mut self, node: &FilterNode)
        requires
            node is ColumnCmp,
            filter_sql(old(self).spec_dialect(), *node, old(self).spec_binds().len()).2,
        ensures
            ({
                let r = filter_sql(old(self).spec_dialect(), *node, old(self).spec_binds().len());
                &&& final(self).spec_dialect() == old(self).spec_dialect()
                &&& final(self).spec_sql() == old(self).spec_sql() + r.0
                &&& final(self).spec_binds() == old(self).spec_binds() + r.1
            }),
    {
        let ghost d = self.spec_dialect();
        let ghost k = self.spec_binds().len();
        let ghost s0 = self.spec_sql();
        let ghost b0 = self.spec_binds();
        match node {
            FilterNode::ColumnCmp { left_table, left_col, op, right_table, right_col } => {
                self.push_column(left_table, left_col);
                self.push_str(" ");
                self.push_op(*op);
                self.push_str(" ");
                self.push_column(right_table, right_col);
                proof {
                    let r = filter_sql(d, *node, k);
                    assert(self.spec_sql() =~= s0 + r.0);
                    assert(self.spec_binds() =~= b0 + r.1);
                }
            },
            _ => {},
        }
    }

    fn push_exists_subquery_node(&mut self, node: &FilterNode)
        requires
            node is ExistsSubquery,
            filter_sql(old(self).spec_dialect(), *node, old(self).spec_binds().len()).2,
        ensures
            ({
                let r = filter_sql(old(self).spec_dialect(), *node, old(self).spec_binds().len());
                &&& final(self).spec_dialect() == old(self).spec_dialect()
                &&& final(self).spec_sql() == old(self).spec_sql() + r.0
                &&& final(self).spec_binds() == old(self).spec_binds() + r.1
            }),
    {
        let ghost d = self.spec_dialect();
        let ghost k = self.spec_binds().len();
        let ghost s0 = self.spec_sql();
        let ghost b0 = self.spec_binds();
        match node {
            FilterNode::ExistsSubquery { subquery, negated } => {
                if *negated {
                    self.push_str("NOT ");
                }
                self.push_str("EXISTS (");
                self.push_subquery(subquery);
                self.push_str(")");
                proof {
                    let r = filter_sql(d, *node, k);
                    assert(self.spec_sql() =~= s0 + r.0);
                }
            },
            _ => {},
        }
    }

    fn push_raw_node(&mut self, node: &FilterNode)
        requires
            node is Raw,
            filter_sql(old(self).spec_dialect(), *node, old(self).spec_binds().len()).2,
        ensures
            ({
                let r = filter_sql(old(self).spec_dialect(), *node, old(self).spec_binds().len());
                &&& final(self).spec_dialect() == old(self).spec_dialect()
                &&& final(self).spec_sql() == old(self).spec_sql() + r.0
                &&& final(self).spec_binds() == old(self).spec_binds() + r.1
            }),
    {
        let ghost d = self.spec_dialect();
        let ghost k = self.spec_binds().len();
        let ghost s0 = self.spec_sql();
        let ghost b0 = self.spec_binds();
        match node {
            FilterNode::Raw(raw) => {
                let parts = raw.parts_ref();
                let binds = raw.binds_ref();
                let ghost nb = binds@.len();
                let mut i: usize = 0;
                proof {
                    assert(parts@.take(0) =~= Seq::<String>::empty());
                    assert(binds@.take(0) =~= Seq::<Value>::empty());
                    assert(s0 + Seq::<char>::empty() =~= s0);
                    assert(b0 + Seq::<ValueView>::empty() =~= b0);
                }
                while i < parts.len()
                    invariant
                        i <= parts@.len(),
                        nb == binds@.len(),
                        self.spec_dialect() == d,
                        b0.len() == k,
                        self.spec_sql() == s0 + raw_text(d, parts@.take(i as int), nb, k),
                        self.spec_binds() == b0 + views_of(
                            binds@.take(if i < nb { i as int } else { nb as int }),
                        ),
                    decreases parts@.len() - i,
                {
                    let ghost m = if i < nb { i as int } else { nb as int };
                    proof {
                        lemma_views_of_index(binds@.take(m));
                        assert(parts@.take(i + 1).drop_last() =~= parts@.take(i as int));
                        assert(parts@.take(i + 1).last() == parts@[i as int]);
                    }
                    self.push_str(parts[i].as_str());
                    if i < binds.len() {
                        self.push_bind(copy_value(&binds[i]));
                        proof {
                            assert(binds@.take(i + 1).drop_last() =~= binds@.take(i as int));
                        }
                    }
                    proof {
                        assert(self.spec_sql() =~= s0 + raw_text(d, parts@.take(i + 1), nb, k));
                        let m2 = if i + 1 < nb { i + 1 } else { nb as int };
                        assert(self.spec_binds() =~= b0 + views_of(binds@.take(m2)));
                    }
                    i = i + 1;
                }
                proof {
                    assert(parts@.take(parts@.len() as int) =~= parts@);
                    let r = filter_sql(d, *node, k);
                    assert(self.spec_sql() =~= s0 + r.0);
                    assert(self.spec_binds() =~= b0 + r.1);
                }
            },
            _ => {},
        }
    }

    fn push_junction_node(&mut self, node: &FilterNode)
        requires
            node is And || node is Or,
            filter_sql(old(self).spec_dialect(), *node, old(self).spec_binds().len()).2,
        ensures
            ({
                let r = filter_sql(old(self).spec_dialect(), *node, old(self).spec_binds().len());
                &&& final(self).spec_dialect() == old(self).spec_dialect()
                &&& final(self).spec_sql() == old(self).spec_sql() + r.0
                &&& final(self).spec_binds() == old(self).spec_binds() + r.1
            }),
        decreases *node, 1nat,
    {
        let ghost d = self.spec_dialect();
        let ghost k = self.spec_binds().len();
        let ghost s0 = self.spec_sql();
        let ghost b0 = self.spec_binds();
        match node {
            FilterNode::And(nodes) => {
                if nodes.len() == 0 {
                    self.push_str("TRUE");
                    proof {
                        assert(self.spec_binds() =~= b0 + Seq::<ValueView>::empty());
                    }
                } else if nodes.len() == 1 {
                    proof {
                        assert(decreases_to!(*node => nodes[0]));
                    }
                    self.push_filter(&nodes[0]);
                } else {
                    self.push_str("(");
                    self.push_list(nodes, " AND ", Ghost(*node));
                    self.push_str(")");
                    proof {
                        let r = filter_sql(d, *node, k);
                        assert(self.spec_sql() =~= s0 + r.0);
                    }
                }
            },
            FilterNode::Or(nodes) => {
                if nodes.len() == 0 {
                    self.push_str("FALSE");
                    proof {
                        assert(self.spec_binds() =~= b0 + Seq::<ValueView>::empty());
                    }
                } else if nodes.len() == 1 {
                    proof {
                        assert(decreases_to!(*node => nodes[0]));
                    }
                    self.push_filter(&nodes[0]);
                } else {
                    self.push_str("(");
                    self.push_list(nodes, " OR ", Ghost(*node));
                    self.push_str(")");
                    proof {
                        let r = filter_sql(d, *node, k);
                        assert(self.spec_sql() =~= s0 + r.0);
                    }
                }
            },
            _ => {},
        }
    }

    fn push_not_node(&mut self, node: &FilterNode)
        requires
            node is Not,
            filter_sql(old(self).spec_dialect(), *node, old(self).spec_binds().len()).2,
        ensures
            ({
                let r = filter_sql(old(self).spec_dialect(), *node, old(self).spec_binds().len());
                &&& final(self).spec_dialect() == old(self).spec_dialect()
                &&& final(self).spec_sql() == old(self).spec_sql() + r.0
                &&& final(self).spec_binds() == old(self).spec_binds() + r.1
            }),
        decreases *node, 1nat,
    {
        let ghost d = self.spec_dialect();
        let ghost k = self.spec_binds().len();
        let ghost s0 = self.spec_sql();
        let ghost b0 = self.spec_binds();
        match node {
            FilterNode::Not(inner) => {
                self.push_str("NOT (");
                self.push_filter(inner);
                self.push_str(")");
                proof {
                    let r = filter_sql(d, *node, k);
                    assert(self.spec_sql() =~= s0 + r.0);
                }
            },
            _ => {},
        }
    }

    #[verifier::rlimit(60)]
    #[verifier::spinoff_prover]
    fn push_exists_node(&mut self, node: &FilterNode)
        requires
            node is Exists,
            filter_sql(old(self).spec_dialect(), *node, old(self).spec_binds().len()).2,
        ensures
            ({
                let r = filter_sql(old(self).spec_dialect(), *node, old(self).spec_binds().len());
                &&& final(self).spec_dialect() == old(self).spec_dialect()
                &&& final(self).spec_sql() == old(self).spec_sql() + r.0
                &&& final(self).spec_binds() == old(self).spec_binds() + r.1
            }),
        decreases *node, 1nat,
    {
        let ghost d = self.spec_dialect();
        let ghost k = self.spec_binds().len();
        let ghost s0 = self.spec_sql();
        let ghost b0 = self.spec_binds();
        match node {
            FilterNode::Exists { child_table, child_col, parent_table, parent_col, filter, negated } => {
                if *negated {
                    self.push_str("NOT ");
                }
                self.push_str("EXISTS (SELECT 1 FROM ");
                self.push_quoted(child_table);
                self.push_str(" WHERE ");
                self.push_column(child_table, child_col);
                self.push_str(" = ");
                self.push_column(parent_table, parent_col);
                let ghost head = if *negated {
                    "NOT "@
                } else {
                    Seq::<char>::empty()
                } + "EXISTS (SELECT 1 FROM "@ + quoted(d, child_table@) + " WHERE "@ + qcol(
                    d,
                    child_table@,
                    child_col@,
                ) + " = "@ + qcol(d, parent_table@, parent_col@);
                proof {
                    assert(self.spec_sql() =~= s0 + head);
                }
                let trivial = match &**filter {
                    FilterNode::And(v) => v.len() == 0,
                    _ => false,
                };
                if !trivial {
                    self.push_str(" AND ");
                    self.push_filter(filter);
                }
                self.push_str(")");
                proof {
                    let r = filter_sql(d, *node, k);
                    assert(self.spec_sql() =~= s0 + r.0);
                    assert(self.spec_binds() =~= b0 + r.1);
                }
            },
            _ => {},
        }
    }

    /// Appends the rendering of `node`.
    pub fn push_filter(&mut self, node: &FilterNode)
        requires
            filter_sql(old(self).spec_dialect(), *node, old(self).spec_binds().len()).2,
        ensures
            ({
                let r = filter_sql(old(self).spec_dialect(), *node, old(self).spec_binds().len());
                &&& final(self).spec_dialect() == old(self).spec_dialect()
                &&& final(self).spec_sql() == old(self).spec_sql() + r.0
                &&& final(self).spec_binds() == old(self).spec_binds() + r.1
            }),
        decreases *node, 2nat,
    {
        let ghost d = self.spec_dialect();
        let ghost k = self.spec_binds().len();
        let ghost s0 = self.spec_sql();
        let ghost b0 = self.spec_binds();
        match node {
            FilterNode::Cmp { .. } => self.push_cmp_node(node),
            FilterNode::Between { .. } => self.push_between_node(node),
            FilterNode::Null { .. } => self.push_null_node(node),
            FilterNode::In { .. } => self.push_in_node(node),
            FilterNode::InSubquery { .. } => self.push_in_subquery_node(node),
            FilterNode::ColumnCmp { .. } => self.push_column_cmp_node(node),
            FilterNode::ExistsSubquery { .. } => self.push_exists_subquery_node(node),
            FilterNode::Raw(_) => self.push_raw_node(node),
            FilterNode::And(_) => self.push_junction_node(node),
            FilterNode::Or(_) => self.push_junction_node(node),
            FilterNode::Not(_) => self.push_not_node(node),
            FilterNode::Exists { .. } => self.push_exists_node(node),
        }
    }
}


// ---------------------------------------------------------------------------
// Statement clauses
// ---------------------------------------------------------------------------

/// `"t"."c1", "t"."c2", ...`
pub open spec fn column_list(d: Dialect, table: Seq<char>, cols: Seq<Seq<char>>) -> Seq<char> {
    sep_join(cols.map_values(|c: Seq<char>| qcol(d, table, c)), ", "@)
}

/// `"c1", "c2", ...`
pub open spec fn name_list(d: Dialect, cols: Seq<Seq<char>>) -> Seq<char> {
    sep_join(cols.map_values(|c: Seq<char>| quoted(d, c)), ", "@)
}

/// One `ORDER BY` item.
pub open spec fn order_item<M>(d: Dialect, o: OrderBy<M>) -> Seq<char> {
    qcol(d, o.table@, o.column@) + if o.desc {
        " DESC"@
    } else {
        " ASC"@
    }
}

/// The `ORDER BY` items, comma-separated.
pub open spec fn order_items<M>(d: Dialect, order: Seq<OrderBy<M>>) -> Seq<char> {
    sep_join(order.map_values(|o: OrderBy<M>| order_item(d, o)), ", "@)
}

/// ` ORDER BY ...`, or nothing for an empty order.
pub open spec fn order_clause<M>(d: Dialect, order: Seq<OrderBy<M>>) -> Seq<char> {
    if order.len() == 0 {
        Seq::empty()
    } else {
        " ORDER BY "@ + order_items(d, order)
    }
}

/// `kw + n`, or nothing when `n` is absent.
pub open spec fn number_clause(kw: Seq<char>, n: Option<u64>) -> Seq<char> {
    match n {
        Some(n) => kw + decimal(n as nat),
        None => Seq::empty(),
    }
}

/// `kw + filter` after `k` binds, or nothing for the trivial filter.
pub open spec fn cond_clause(d: Dialect, kw: Seq<char>, filter: FilterNode, k: nat) -> (
    Seq<char>,
    Seq<ValueView>,
    bool,
) {
    if is_trivial(filter) {
        (Seq::empty(), Seq::empty(), true)
    } else {
        let r = filter_sql(d, filter, k);
        (kw + r.0, r.1, r.2)
    }
}

/// One item of a `RETURNING` list: `*` stays bare.
pub open spec fn returning_item(d: Dialect, c: Seq<char>) -> Seq<char> {
    if c == seq!['*'] {
        seq!['*']
    } else {
        quoted(d, c)
    }
}

/// ` RETURNING ...` where the dialect supports it and columns are asked for.
pub open spec fn returning_clause(d: Dialect, cols: Seq<Seq<char>>) -> Seq<char> {
    if d is MySql || cols.len() == 0 {
        Seq::empty()
    } else {
        " RETURNING "@ + sep_join(cols.map_values(|c: Seq<char>| returning_item(d, c)), ", "@)
    }
}

/// The column names of an assignment list.
pub open spec fn pair_columns(row: Seq<(&'static str, Value)>) -> Seq<Seq<char>> {
    row.map_values(|p: (&'static str, Value)| p.0@)
}

/// The values of an assignment list.
pub open spec fn pair_values(row: Seq<(&'static str, Value)>) -> Seq<ValueView> {
    row.map_values(|p: (&'static str, Value)| p.1@)
}

/// `$k+1, $k+2, ...` for `n` binds.
pub open spec fn bind_list(d: Dialect, k: nat, n: nat) -> Seq<char> {
    sep_join(placeholder_list(d, k, n), ", "@)
}

/// `"c1" = $k+1, "c2" = $k+2, ...`
pub open spec fn set_list(d: Dialect, cols: Seq<Seq<char>>, k: nat) -> Seq<char> {
    sep_join(
        Seq::new(cols.len(), |i: int| quoted(d, cols[i]) + " = "@ + placeholder_text(d, k + i as nat)),
        ", "@,
    )
}

/// Whether `s` is the one-character string `*`.
fn is_star(s: &str) -> (r: bool)
    ensures
        r == (s@ == seq!['*']),
{
    if s.unicode_len() != 1 {
        return false;
    }
    let c = s.get_char(0);
    proof {
        if c == '*' {
            assert(s@ =~= seq!['*']);
        }
    }
    c == '*'
}

impl Compiler {
    /// Appends `"t"."c1", "t"."c2", ...`.
    pub fn push_column_list(&mut self, table: &str, cols: &[&str])
        ensures
            final(self).spec_dialect() == old(self).spec_dialect(),
            final(self).spec_sql() == old(self).spec_sql() + column_list(
                old(self).spec_dialect(),
                table@,
                str_views(cols@),
            ),
            final(self).spec_binds() == old(self).spec_binds(),
    {
        let ghost d = self.spec_dialect();
        let ghost s0 = self.spec_sql();
        let ghost parts = str_views(cols@).map_values(|c: Seq<char>| qcol(d, table@, c));
        let mut i: usize = 0;
        proof {
            assert(parts.take(0) =~= Seq::<Seq<char>>::empty());
            assert(s0 + Seq::<char>::empty() =~= s0);
        }
        while i < cols.len()
            invariant
                i <= cols@.len(),
                self.spec_dialect() == d,
                self.spec_binds() == old(self).spec_binds(),
                parts == str_views(cols@).map_values(|c: Seq<char>| qcol(d, table@, c)),
                self.spec_sql() == s0 + sep_join(parts.take(i as int), ", "@),
            decreases cols@.len() - i,
        {
            if i > 0 {
                self.push_str(", ");
            }
            self.push_column(table, cols[i]);
            proof {
                lemma_sep_join_push(parts.take(i as int), ", "@, parts[i as int]);
                assert(parts.take(i as int).push(parts[i as int]) =~= parts.take(i + 1));
                assert(self.spec_sql() =~= s0 + sep_join(parts.take(i + 1), ", "@));
            }
            i = i + 1;
        }
        proof {
            assert(parts.take(cols@.len() as int) =~= parts);
        }
    }

    /// Appends `"c1", "c2", ...`.
    pub fn push_name_list(&mut self, cols: &[&str])
        ensures
            final(self).spec_dialect() == old(self).spec_dialect(),
            final(self).spec_sql() == old(self).spec_sql() + name_list(
                old(self).spec_dialect(),
                str_views(cols@),
            ),
            final(self).spec_binds() == old(self).spec_binds(),
    {
        let ghost d = self.spec_dialect();
        self.dialect.push_quoted_list(&mut self.sql, cols);
    }

    /// Appends the `ORDER BY` items.
    pub fn push_order<M>(&mut self, order: &[OrderBy<M>])
        ensures
            final(self).spec_dialect() == old(self).spec_dialect(),
            final(self).spec_sql() == old(self).spec_sql() + order_items(
                old(self).spec_dialect(),
                order@,
            ),
            final(self).spec_binds() == old(self).spec_binds(),
    {
        let ghost d = self.spec_dialect();
        let ghost s0 = self.spec_sql();
        let ghost parts = order@.map_values(|o: OrderBy<M>| order_item(d, o));
        let mut i: usize = 0;
        proof {
            assert(parts.take(0) =~= Seq::<Seq<char>>::empty());
            assert(s0 + Seq::<char>::empty() =~= s0);
        }
        while i < order.len()
            invariant
                i <= order@.len(),
                self.spec_dialect() == d,
                self.spec_binds() == old(self).spec_binds(),
                parts == order@.map_values(|o: OrderBy<M>| order_item(d, o)),
                self.spec_sql() == s0 + sep_join(parts.take(i as int), ", "@),
            decreases order@.len() - i,
        {
            if i > 0 {
                self.push_str(", ");
            }
            let o = &order[i];
            self.push_column(o.table, o.column);
            if o.desc {
                self.push_str(" DESC");
            } else {
                self.push_str(" ASC");
            }
            proof {
                lemma_sep_join_push(parts.take(i as int), ", "@, parts[i as int]);
                assert(parts.take(i as int).push(parts[i as int]) =~= parts.take(i + 1));
                assert(self.spec_sql() =~= s0 + sep_join(parts.take(i + 1), ", "@));
            }
            i = i + 1;
        }
        proof {
            assert(parts.take(order@.len() as int) =~= parts);
        }
    }

    /// Appends ` ORDER BY ...` for a non-empty order.
    pub fn push_order_clause<M>(&mut self, order: &[OrderBy<M>])
        ensures
            final(self).spec_dialect() == old(self).spec_dialect(),
            final(self).spec_sql() == old(self).spec_sql() + order_clause(
                old(self).spec_dialect(),
                order@,
            ),
            final(self).spec_binds() == old(self).spec_binds(),
    {
        if order.len() > 0 {
            self.push_str(" ORDER BY ");
            self.push_order(order);
            proof {
                assert(self.spec_sql() =~= old(self).spec_sql() + order_clause(
                    self.spec_dialect(),
                    order@,
                ));
            }
        } else {
            proof {
                assert(self.spec_sql() =~= old(self).spec_sql() + Seq::<char>::empty());
            }
        }
    }

    /// Appends `kw + n` when `n` is present.
    pub fn push_number_clause(&mut self, kw: &str, n: Option<u64>)
        ensures
            final(self).spec_dialect() == old(self).spec_dialect(),
            final(self).spec_sql() == old(self).spec_sql() + number_clause(kw@, n),
            final(self).spec_binds() == old(self).spec_binds(),
    {
        match n {
            Some(n) => {
                self.push_str(kw);
                self.push_number(n);
                proof {
                    assert(self.spec_sql() =~= old(self).spec_sql() + (kw@ + decimal(n as nat)));
                }
            },
            None => {
                proof {
                    assert(self.spec_sql() =~= old(self).spec_sql() + Seq::<char>::empty());
                }
            },
        }
    }

    /// Appends `kw + filter` unless the filter is the trivial conjunction.
    pub fn push_cond(&mut self, kw: &str, filter: &FilterNode)
        requires
            cond_clause(old(self).spec_dialect(), kw@, *filter, old(self).spec_binds().len()).2,
        ensures
            ({
                let r = cond_clause(
                    old(self).spec_dialect(),
                    kw@,
                    *filter,
                    old(self).spec_binds().len(),
                );
                &&& final(self).spec_dialect() == old(self).spec_dialect()
                &&& final(self).spec_sql() == old(self).spec_sql() + r.0
                &&& final(self).spec_binds() == old(self).spec_binds() + r.1
            }),
    {
        let trivial = match filter {
            FilterNode::And(v) => v.len() == 0,
            _ => false,
        };
        if !trivial {
            self.push_str(kw);
            self.push_filter(filter);
            proof {
                let r = filter_sql(self.spec_dialect(), *filter, old(self).spec_binds().len());
                assert(self.spec_sql() =~= old(self).spec_sql() + (kw@ + r.0));
            }
        } else {
            proof {
                assert(self.spec_sql() =~= old(self).spec_sql() + Seq::<char>::empty());
                assert(self.spec_binds() =~= old(self).spec_binds() + Seq::<ValueView>::empty());
            }
        }
    }

    /// Appends ` RETURNING ...` where supported and asked for.
    pub fn push_returning(&mut self, returning: &[&str])
        ensures
            final(self).spec_dialect() == old(self).spec_dialect(),
            final(self).spec_sql() == old(self).spec_sql() + returning_clause(
                old(self).spec_dialect(),
                str_views(returning@),
            ),
            final(self).spec_binds() == old(self).spec_binds(),
    {
        let ghost d = self.spec_dialect();
        let ghost s0 = self.spec_sql();
        if self.dialect.returning_supported() && returning.len() > 0 {
            self.push_str(" RETURNING ");
            let ghost s1 = self.spec_sql();
            let ghost parts = str_views(returning@).map_values(|c: Seq<char>| returning_item(d, c));
            let mut i: usize = 0;
            proof {
                assert(parts.take(0) =~= Seq::<Seq<char>>::empty());
                assert(s1 + Seq::<char>::empty() =~= s1);
            }
            while i < returning.len()
                invariant
                    i <= returning@.len(),
                    self.spec_dialect() == d,
                    self.spec_binds() == old(self).spec_binds(),
                    parts == str_views(returning@).map_values(|c: Seq<char>| returning_item(d, c)),
                    self.spec_sql() == s1 + sep_join(parts.take(i as int), ", "@),
                decreases returning@.len() - i,
            {
                if i > 0 {
                    self.push_str(", ");
                }
                if is_star(returning[i]) {
                    self.push_str("*");
                    proof {
                        reveal_strlit("*");
                    }
                } else {
                    self.push_quoted(returning[i]);
                }
                proof {
                    lemma_sep_join_push(parts.take(i as int), ", "@, parts[i as int]);
                    assert(parts.take(i as int).push(parts[i as int]) =~= parts.take(i + 1));
                    assert(self.spec_sql() =~= s1 + sep_join(parts.take(i + 1), ", "@));
                }
                i = i + 1;
            }
            proof {
                assert(parts.take(returning@.len() as int) =~= parts);
                assert(self.spec_sql() =~= s0 + returning_clause(d, str_views(returning@)));
            }
        } else {
            proof {
                assert(self.spec_sql() =~= s0 + Seq::<char>::empty());
            }
        }
    }

    /// Appends `$k+1, $k+2, ...` binding the values of `row`.
    pub fn push_bind_row(&mut self, row: &[(&'static str, Value)])
        ensures
            final(self).spec_dialect() == old(self).spec_dialect(),
            final(self).spec_sql() == old(self).spec_sql() + bind_list(
                old(self).spec_dialect(),
                old(self).spec_binds().len(),
                row@.len(),
            ),
            final(self).spec_binds() == old(self).spec_binds() + pair_values(row@),
    {
        let ghost d = self.spec_dialect();
        let ghost k = self.spec_binds().len();
        let ghost s0 = self.spec_sql();
        let ghost b0 = self.spec_binds();
        let mut i: usize = 0;
        proof {
            assert(placeholder_list(d, k, 0) =~= Seq::<Seq<char>>::empty());
            assert(pair_values(row@.take(0)) =~= Seq::<ValueView>::empty());
            assert(s0 + Seq::<char>::empty() =~= s0);
            assert(b0 + Seq::<ValueView>::empty() =~= b0);
        }
        while i < row.len()
            invariant
                i <= row@.len(),
                self.spec_dialect() == d,
                b0.len() == k,
                self.spec_sql() == s0 + sep_join(placeholder_list(d, k, i as nat), ", "@),
                self.spec_binds() == b0 + pair_values(row@.take(i as int)),
            decreases row@.len() - i,
        {
            proof {
                lemma_sep_join_push(
                    placeholder_list(d, k, i as nat),
                    ", "@,
                    placeholder_text(d, (k + i) as nat),
                );
                assert(placeholder_list(d, k, i as nat).push(placeholder_text(d, (k + i) as nat))
                    =~= placeholder_list(d, k, (i + 1) as nat));
                assert(pair_values(row@.take(i + 1)) =~= pair_values(row@.take(i as int)).push(
                    row@[i as int].1@,
                ));
            }
            if i > 0 {
                self.push_str(", ");
            }
            self.push_bind(copy_value(&row[i].1));
            proof {
                assert(self.spec_sql() =~= s0 + sep_join(
                    placeholder_list(d, k, (i + 1) as nat),
                    ", "@,
                ));
                assert(self.spec_binds() =~= b0 + pair_values(row@.take(i + 1)));
            }
            i = i + 1;
        }
        proof {
            assert(row@.take(row@.len() as int) =~= row@);
        }
    }

    /// Appends the quoted column names of an assignment list.
    pub fn push_pair_names(&mut self, row: &[(&'static str, Value)])
        ensures
            final(self).spec_dialect() == old(self).spec_dialect(),
            final(self).spec_sql() == old(self).spec_sql() + name_list(
                old(self).spec_dialect(),
                pair_columns(row@),
            ),
            final(self).spec_binds() == old(self).spec_binds(),
    {
        let ghost d = self.spec_dialect();
        let ghost s0 = self.spec_sql();
        let ghost parts = pair_columns(row@).map_values(|c: Seq<char>| quoted(d, c));
        let mut i: usize = 0;
        proof {
            assert(parts.take(0) =~= Seq::<Seq<char>>::empty());
            assert(s0 + Seq::<char>::empty() =~= s0);
        }
        while i < row.len()
            invariant
                i <= row@.len(),
                self.spec_dialect() == d,
                self.spec_binds() == old(self).spec_binds(),
                parts == pair_columns(row@).map_values(|c: Seq<char>| quoted(d, c)),
                self.spec_sql() == s0 + sep_join(parts.take(i as int), ", "@),
            decreases row@.len() - i,
        {
            if i > 0 {
                self.push_str(", ");
            }
            self.push_quoted(row[i].0);
            proof {
                lemma_sep_join_push(parts.take(i as int), ", "@, parts[i as int]);
                assert(parts.take(i as int).push(parts[i as int]) =~= parts.take(i + 1));
                assert(self.spec_sql() =~= s0 + sep_join(parts.take(i + 1), ", "@));
            }
            i = i + 1;
        }
        proof {
            assert(parts.take(row@.len() as int) =~= parts);
        }
    }
}


// ---------------------------------------------------------------------------
// Statements
// ---------------------------------------------------------------------------

/// The columns a `SELECT` for `M` projects: the explicit projection, else
/// the model's declared columns.
pub open spec fn select_columns<M: Model>(projection: Seq<&str>) -> Seq<Seq<char>> {
    if projection.len() == 0 && M::COLUMNS@.len() != 0 {
        str_views(M::COLUMNS@)
    } else {
        str_views(projection)
    }
}

/// `DISTINCT ` when asked for.
pub open spec fn distinct_text(distinct: bool) -> Seq<char> {
    if distinct {
        "DISTINCT "@
    } else {
        Seq::empty()
    }
}

/// The `SELECT` statement `select` compiles, its binds, and whether the
/// filter's subqueries can be spliced in.
pub open spec fn select_text<M: Model>(
    d: Dialect,
    table: Seq<char>,
    projection: Seq<&str>,
    filter: FilterNode,
    order: Seq<OrderBy<M>>,
    limit: Option<u64>,
    offset: Option<u64>,
    distinct: bool,
) -> (Seq<char>, Seq<ValueView>, bool) {
    let cols = select_columns::<M>(projection);
    let w = cond_clause(d, " WHERE "@, filter, 0);
    (
        "SELECT "@ + distinct_text(distinct) + if cols.len() == 0 {
            "*"@
        } else {
            column_list(d, table, cols)
        } + " FROM "@ + quoted(d, table) + w.0 + order_clause(d, order) + number_clause(
            " LIMIT "@,
            limit,
        ) + number_clause(" OFFSET "@, offset),
        w.1,
        w.2,
    )
}

/// A select's text does not depend on the values its filter binds: two
/// selects whose filters have the same shape have the same text and as many
/// binds.
pub proof fn law_select_text_independent_of_values<M: Model>(
    d: Dialect,
    table: Seq<char>,
    projection: Seq<&str>,
    f: FilterNode,
    g: FilterNode,
    order: Seq<OrderBy<M>>,
    limit: Option<u64>,
    offset: Option<u64>,
    distinct: bool,
)
    requires
        same_shape(f, g),
    ensures
        select_text::<M>(d, table, projection, f, order, limit, offset, distinct).0 == select_text::<M>(
            d,
            table,
            projection,
            g,
            order,
            limit,
            offset,
            distinct,
        ).0,
        select_text::<M>(d, table, projection, f, order, limit, offset, distinct).1.len() == select_text::<M>(
            d,
            table,
            projection,
            g,
            order,
            limit,
            offset,
            distinct,
        ).1.len(),
{
    law_text_independent_of_values(d, f, g, 0);
    lemma_same_shape_trivial(f, g);
}

/// Compile a `SELECT` for `M`.
pub fn select<M: Model>(
    dialect: Dialect,
    table: &str,
    projection: &[&str],
    filter: &FilterNode,
    order: &[OrderBy<M>],
    limit: Option<u64>,
    offset: Option<u64>,
    distinct: bool,
) -> (r: CompiledSql)
    requires
        select_text::<M>(dialect, table@, projection@, *filter, order@, limit, offset, distinct).2,
    ensures
        ({
            let t = select_text::<M>(dialect, table@, projection@, *filter, order@, limit, offset, distinct);
            r.sql@ == t.0 && views_of(r.binds@) == t.1
        }),
{
    let mut c = Compiler::new(dialect);
    c.push_str("SELECT ");
    if distinct {
        c.push_str("DISTINCT ");
    }
    let cols: &[&str] = if projection.len() == 0 && M::COLUMNS.len() != 0 {
        M::COLUMNS
    } else {
        projection
    };
    let ghost s1 = c.spec_sql();
    if cols.len() == 0 {
        c.push_str("*");
        proof {
            reveal_strlit("*");
        }
    } else {
        c.push_column_list(table, cols);
    }
    c.push_str(" FROM ");
    c.push_quoted(table);
    let ghost s2 = c.spec_sql();
    c.push_cond(" WHERE ", filter);
    let ghost s3 = c.spec_sql();
    c.push_order_clause(order);
    c.push_number_clause(" LIMIT ", limit);
    c.push_number_clause(" OFFSET ", offset);
    proof {
        let t = select_text::<M>(dialect, table@, projection@, *filter, order@, limit, offset, distinct);
        assert(s1 =~= "SELECT "@ + distinct_text(distinct));
        assert(c.spec_sql() =~= t.0);
        assert(c.spec_binds() =~= t.1);
    }
    c.finish()
}

/// The `SELECT COUNT(*)` statement `count` compiles.
pub open spec fn count_text(d: Dialect, table: Seq<char>, filter: FilterNode) -> (
    Seq<char>,
    Seq<ValueView>,
    bool,
) {
    let w = cond_clause(d, " WHERE "@, filter, 0);
    ("SELECT COUNT(*) FROM "@ + quoted(d, table) + w.0, w.1, w.2)
}

/// Compile a `SELECT COUNT(*)` for `M`.
///
/// Skips `ORDER BY`, `LIMIT` and `OFFSET` because an aggregate count over an
/// unordered, unlimited relation is what callers want.
pub fn count<M: Model>(dialect: Dialect, table: &str, filter: &FilterNode) -> (r: CompiledSql)
    requires
        count_text(dialect, table@, *filter).2,
    ensures
        r.sql@ == count_text(dialect, table@, *filter).0,
        views_of(r.binds@) == count_text(dialect, table@, *filter).1,
{
    let mut c = Compiler::new(dialect);
    c.push_str("SELECT COUNT(*) FROM ");
    c.push_quoted(table);
    c.push_cond(" WHERE ", filter);
    proof {
        assert(c.spec_sql() =~= count_text(dialect, table@, *filter).0);
        assert(c.spec_binds() =~= count_text(dialect, table@, *filter).1);
    }
    c.finish()
}

/// The `SELECT 1 ... LIMIT 1` statement `exists_select` compiles.
pub open spec fn exists_text(d: Dialect, table: Seq<char>, filter: FilterNode) -> (
    Seq<char>,
    Seq<ValueView>,
    bool,
) {
    let w = cond_clause(d, " WHERE "@, filter, 0);
    ("SELECT 1 FROM "@ + quoted(d, table) + w.0 + " LIMIT 1"@, w.1, w.2)
}

/// Compile an `EXISTS`-style `SELECT 1 ... LIMIT 1` for `M`.
pub fn exists_select<M: Model>(dialect: Dialect, table: &str, filter: &FilterNode) -> (r: CompiledSql)
    requires
        exists_text(dialect, table@, *filter).2,
    ensures
        r.sql@ == exists_text(dialect, table@, *filter).0,
        views_of(r.binds@) == exists_text(dialect, table@, *filter).1,
{
    let mut c = Compiler::new(dialect);
    c.push_str("SELECT 1 FROM ");
    c.push_quoted(table);
    c.push_cond(" WHERE ", filter);
    c.push_str(" LIMIT 1");
    proof {
        assert(c.spec_sql() =~= exists_text(dialect, table@, *filter).0);
        assert(c.spec_binds() =~= exists_text(dialect, table@, *filter).1);
    }
    c.finish()
}

/// The alias the partitioned select gives its `ROW_NUMBER()` column.
pub const ROW_NUMBER_ALIAS: &'static str = "__rz_rn";

/// The statement `select_partitioned` compiles.
pub open spec fn partitioned_text<M: Model>(
    d: Dialect,
    table: Seq<char>,
    partition_by: Seq<char>,
    filter: FilterNode,
    order: Seq<OrderBy<M>>,
    take: u64,
) -> (Seq<char>, Seq<ValueView>, bool) {
    let w = cond_clause(d, " WHERE "@, filter, 0);
    (
        "SELECT * FROM (SELECT "@ + if M::COLUMNS@.len() == 0 {
            quoted(d, table) + ".*"@
        } else {
            column_list(d, table, str_views(M::COLUMNS@))
        } + ", ROW_NUMBER() OVER (PARTITION BY "@ + qcol(d, table, partition_by) + " ORDER BY "@
            + if order.len() == 0 {
            qcol(d, table, M::PRIMARY_KEY@) + " ASC"@
        } else {
            order_items(d, order)
        } + ") AS "@ + quoted(d, ROW_NUMBER_ALIAS@) + " FROM "@ + quoted(d, table) + w.0 + ") AS "@
            + quoted(d, "__rz_partitioned"@) + " WHERE "@ + quoted(d, ROW_NUMBER_ALIAS@) + " <= "@
            + decimal(take as nat) + " ORDER BY "@ + quoted(d, ROW_NUMBER_ALIAS@) + " ASC"@,
        w.1,
        w.2,
    )
}

/// Compile a `SELECT` for `M` that keeps only the first `take` rows *per group*.
///
/// This is the per-parent `take` of a relation load: a plain `LIMIT`
/// would cap the whole batch rather than each parent's children.
#[verifier::rlimit(60)]
#[verifier::spinoff_prover]
pub fn select_partitioned<M: Model>(
    dialect: Dialect,
    table: &str,
    partition_by: &str,
    filter: &FilterNode,
    order: &[OrderBy<M>],
    take: u64,
) -> (r: CompiledSql)
    requires
        partitioned_text::<M>(dialect, table@, partition_by@, *filter, order@, take).2,
    ensures
        r.sql@ == partitioned_text::<M>(dialect, table@, partition_by@, *filter, order@, take).0,
        views_of(r.binds@) == partitioned_text::<M>(
            dialect,
            table@,
            partition_by@,
            *filter,
            order@,
            take,
        ).1,
{
    let mut c = Compiler::new(dialect);
    c.push_str("SELECT * FROM (SELECT ");
    let ghost s0 = c.spec_sql();
    if M::COLUMNS.len() == 0 {
        c.push_quoted(table);
        c.push_str(".*");
    } else {
        c.push_column_list(table, M::COLUMNS);
    }
    let ghost s1 = c.spec_sql();
    c.push_str(", ROW_NUMBER() OVER (PARTITION BY ");
    c.push_column(table, partition_by);
    c.push_str(" ORDER BY ");
    let ghost s2 = c.spec_sql();
    if order.len() == 0 {
        c.push_column(table, M::PRIMARY_KEY);
        c.push_str(" ASC");
    } else {
        c.push_order(order);
    }
    let ghost s3 = c.spec_sql();
    c.push_str(") AS ");
    c.push_quoted(ROW_NUMBER_ALIAS);
    c.push_str(" FROM ");
    c.push_quoted(table);
    let ghost s4 = c.spec_sql();
    c.push_cond(" WHERE ", filter);
    let ghost s5 = c.spec_sql();
    c.push_str(") AS ");
    c.push_quoted("__rz_partitioned");
    c.push_str(" WHERE ");
    c.push_quoted(ROW_NUMBER_ALIAS);
    c.push_str(" <= ");
    c.push_number(take);
    c.push_str(" ORDER BY ");
    c.push_quoted(ROW_NUMBER_ALIAS);
    c.push_str(" ASC");
    proof {
        let t = partitioned_text::<M>(dialect, table@, partition_by@, *filter, order@, take);
        assert(c.spec_sql() =~= t.0);
        assert(c.spec_binds() =~= t.1);
    }
    c.finish()
}

/// The `INSERT` statement `insert` compiles (before its binds).
pub open spec fn insert_text(
    d: Dialect,
    table: Seq<char>,
    values: Seq<(&'static str, Value)>,
    returning: Seq<&str>,
) -> Seq<char> {
    "INSERT INTO "@ + quoted(d, table) + " ("@ + name_list(d, pair_columns(values)) + ") VALUES ("@
        + bind_list(d, 0, values.len()) + ")"@ + returning_clause(d, str_views(returning))
}

/// Compile an `INSERT` for `M`.
pub fn insert<M: Model>(
    dialect: Dialect,
    table: &str,
    values: &[(&'static str, Value)],
    returning: &[&str],
) -> (r: CompiledSql)
    ensures
        r.sql@ == insert_text(dialect, table@, values@, returning@),
        views_of(r.binds@) == pair_values(values@),
{
    let mut c = Compiler::new(dialect);
    c.push_str("INSERT INTO ");
    c.push_quoted(table);
    c.push_str(" (");
    c.push_pair_names(values);
    c.push_str(") VALUES (");
    c.push_bind_row(values);
    c.push_str(")");
    c.push_returning(returning);
    proof {
        assert(c.spec_sql() =~= insert_text(dialect, table@, values@, returning@));
        assert(c.spec_binds() =~= pair_values(values@));
    }
    c.finish()
}

/// The value rows of a multi-row insert, after `k` binds: `(...), (...)`.
pub open spec fn rows_text(d: Dialect, rows: Seq<Vec<(&'static str, Value)>>, k: nat) -> Seq<char>
    decreases rows.len(),
{
    if rows.len() == 0 {
        Seq::empty()
    } else {
        let prior = rows_binds(rows.drop_last()).len();
        rows_text(d, rows.drop_last(), k) + if rows.len() == 1 {
            Seq::empty()
        } else {
            ", "@
        } + "("@ + bind_list(d, k + prior, rows.last()@.len()) + ")"@
    }
}

/// The binds of a multi-row insert, row by row.
pub open spec fn rows_binds(rows: Seq<Vec<(&'static str, Value)>>) -> Seq<ValueView>
    decreases rows.len(),
{
    if rows.len() == 0 {
        Seq::empty()
    } else {
        rows_binds(rows.drop_last()) + pair_values(rows.last()@)
    }
}

/// The statement `insert_many` compiles; empty for no rows.
pub open spec fn insert_many_text(
    d: Dialect,
    table: Seq<char>,
    rows: Seq<Vec<(&'static str, Value)>>,
    returning: Seq<&str>,
) -> Seq<char> {
    if rows.len() == 0 {
        Seq::empty()
    } else {
        "INSERT INTO "@ + quoted(d, table) + " ("@ + name_list(d, pair_columns(rows[0]@))
            + ") VALUES "@ + rows_text(d, rows, 0) + returning_clause(d, str_views(returning))
    }
}

/// Compile a multi-row `INSERT` for `M`; the columns are those of the first row.
#[verifier::rlimit(60)]
#[verifier::spinoff_prover]
pub fn insert_many<M: Model>(
    dialect: Dialect,
    table: &str,
    rows: &[Vec<(&'static str, Value)>],
    returning: &[&str],
) -> (r: CompiledSql)
    ensures
        r.sql@ == insert_many_text(dialect, table@, rows@, returning@),
        views_of(r.binds@) == if rows@.len() == 0 {
            Seq::empty()
        } else {
            rows_binds(rows@)
        },
{
    let mut c = Compiler::new(dialect);
    if rows.len() == 0 {
        return c.finish();
    }
    c.push_str("INSERT INTO ");
    c.push_quoted(table);
    c.push_str(" (");
    c.push_pair_names(rows[0].as_slice());
    c.push_str(") VALUES ");
    let ghost s0 = c.spec_sql();
    let mut r: usize = 0;
    proof {
        assert(rows@.take(0) =~= Seq::<Vec<(&'static str, Value)>>::empty());
        assert(s0 + Seq::<char>::empty() =~= s0);
        assert(Seq::<ValueView>::empty() + Seq::<ValueView>::empty() =~= Seq::<ValueView>::empty());
    }
    while r < rows.len()
        invariant
            r <= rows@.len(),
            c.spec_dialect() == dialect,
            c.spec_sql() == s0 + rows_text(dialect, rows@.take(r as int), 0),
            c.spec_binds() == rows_binds(rows@.take(r as int)),
        decreases rows@.len() - r,
    {
        proof {
            assert(rows@.take(r + 1).drop_last() =~= rows@.take(r as int));
            assert(rows@.take(r + 1).last() == rows@[r as int]);
        }
        if r > 0 {
            c.push_str(", ");
        }
        c.push_str("(");
        c.push_bind_row(rows[r].as_slice());
        c.push_str(")");
        proof {
            assert(c.spec_sql() =~= s0 + rows_text(dialect, rows@.take(r + 1), 0));
        }
        r = r + 1;
    }
    proof {
        assert(rows@.take(rows@.len() as int) =~= rows@);
    }
    c.push_returning(returning);
    proof {
        assert(c.spec_sql() =~= insert_many_text(dialect, table@, rows@, returning@));
    }
    c.finish()
}

impl Compiler {
    /// Appends the dialect's conflict clause for an upsert.
    pub fn push_upsert(&mut self, conflict: &[&str], update: &[&str])
        ensures
            final(self).spec_dialect() == old(self).spec_dialect(),
            final(self).spec_sql() == old(self).spec_sql() + upsert_clause_text(
                old(self).spec_dialect(),
                str_views(conflict@),
                str_views(update@),
            ),
            final(self).spec_binds() == old(self).spec_binds(),
    {
        let ghost d = self.spec_dialect();
        let ghost s0 = self.spec_sql();
        let ghost cv = str_views(conflict@);
        let ghost uv = str_views(update@);
        if matches!(self.dialect, Dialect::MySql) {
            self.push_str("ON DUPLICATE KEY UPDATE ");
            let ghost s1 = self.spec_sql();
            let items: &[&str] = if update.len() == 0 {
                conflict
            } else {
                update
            };
            let ghost parts = str_views(items@).map_values(
                |c: Seq<char>|
                    if update@.len() == 0 {
                        quoted(d, c) + " = "@ + quoted(d, c)
                    } else {
                        crate::dialect::upsert_assignment(d, c)
                    },
            );
            let mut i: usize = 0;
            proof {
                assert(parts.take(0) =~= Seq::<Seq<char>>::empty());
                assert(s1 + Seq::<char>::empty() =~= s1);
            }
            while i < items.len()
                invariant
                    i <= items@.len(),
                    self.spec_dialect() == d,
                    d is MySql,
                    self.spec_binds() == old(self).spec_binds(),
                    items@ == if update@.len() == 0 {
                        conflict@
                    } else {
                        update@
                    },
                    parts == str_views(items@).map_values(
                        |c: Seq<char>|
                            if update@.len() == 0 {
                                quoted(d, c) + " = "@ + quoted(d, c)
                            } else {
                                crate::dialect::upsert_assignment(d, c)
                            },
                    ),
                    self.spec_sql() == s1 + sep_join(parts.take(i as int), ", "@),
                decreases items@.len() - i,
            {
                if i > 0 {
                    self.push_str(", ");
                }
                self.push_quoted(items[i]);
                if update.len() == 0 {
                    self.push_str(" = ");
                    self.push_quoted(items[i]);
                } else {
                    self.push_str(" = VALUES(");
                    self.push_quoted(items[i]);
                    self.push_str(")");
                }
                proof {
                    lemma_sep_join_push(parts.take(i as int), ", "@, parts[i as int]);
                    assert(parts.take(i as int).push(parts[i as int]) =~= parts.take(i + 1));
                    assert(self.spec_sql() =~= s1 + sep_join(parts.take(i + 1), ", "@));
                }
                i = i + 1;
            }
            proof {
                assert(parts.take(items@.len() as int) =~= parts);
                if update@.len() == 0 {
                    assert(parts =~= cv.map_values(|c: Seq<char>| quoted(d, c) + " = "@ + quoted(d, c)));
                } else {
                    assert(parts =~= uv.map_values(|c: Seq<char>| crate::dialect::upsert_assignment(d, c)));
                }
                assert(self.spec_sql() =~= s0 + upsert_clause_text(d, cv, uv));
            }
        } else {
            self.push_str("ON CONFLICT (");
            let ghost s1 = self.spec_sql();
            let mut i: usize = 0;
            proof {
                assert(cv.take(0) =~= Seq::<Seq<char>>::empty());
                assert(s1 + Seq::<char>::empty() =~= s1);
            }
            while i < conflict.len()
                invariant
                    i <= conflict@.len(),
                    self.spec_dialect() == d,
                    self.spec_binds() == old(self).spec_binds(),
                    cv == str_views(conflict@),
                    self.spec_sql() == s1 + sep_join(cv.take(i as int), ", "@),
                decreases conflict@.len() - i,
            {
                if i > 0 {
                    self.push_str(", ");
                }
                self.push_str(conflict[i]);
                proof {
                    lemma_sep_join_push(cv.take(i as int), ", "@, cv[i as int]);
                    assert(cv.take(i as int).push(cv[i as int]) =~= cv.take(i + 1));
                    assert(self.spec_sql() =~= s1 + sep_join(cv.take(i + 1), ", "@));
                }
                i = i + 1;
            }
            proof {
                assert(cv.take(conflict@.len() as int) =~= cv);
            }
            let ghost s2 = self.spec_sql();
            if update.len() == 0 {
                self.push_str(") DO NOTHING");
                proof {
                    assert(self.spec_sql() =~= s0 + upsert_clause_text(d, cv, uv));
                }
            } else {
                self.push_str(") DO UPDATE SET ");
                let ghost s3 = self.spec_sql();
                let ghost parts = uv.map_values(|c: Seq<char>| crate::dialect::upsert_assignment(d, c));
                let mut j: usize = 0;
                proof {
                    assert(parts.take(0) =~= Seq::<Seq<char>>::empty());
                    assert(s3 + Seq::<char>::empty() =~= s3);
                }
                while j < update.len()
                    invariant
                        j <= update@.len(),
                        self.spec_dialect() == d,
                        !(d is MySql),
                        self.spec_binds() == old(self).spec_binds(),
                        uv == str_views(update@),
                        parts == uv.map_values(|c: Seq<char>| crate::dialect::upsert_assignment(d, c)),
                        self.spec_sql() == s3 + sep_join(parts.take(j as int), ", "@),
                    decreases update@.len() - j,
                {
                    if j > 0 {
                        self.push_str(", ");
                    }
                    self.push_quoted(update[j]);
                    self.push_str(" = EXCLUDED.");
                    self.push_quoted(update[j]);
                    proof {
                        lemma_sep_join_push(parts.take(j as int), ", "@, parts[j as int]);
                        assert(parts.take(j as int).push(parts[j as int]) =~= parts.take(j + 1));
                        assert(self.spec_sql() =~= s3 + sep_join(parts.take(j + 1), ", "@));
                    }
                    j = j + 1;
                }
                proof {
                    assert(parts.take(update@.len() as int) =~= parts);
                    assert(self.spec_sql() =~= s0 + upsert_clause_text(d, cv, uv));
                }
            }
        }
    }
}

/// The `INSERT ... ON CONFLICT` statement `upsert` compiles (before binds).
pub open spec fn upsert_text(
    d: Dialect,
    table: Seq<char>,
    values: Seq<(&'static str, Value)>,
    conflict: Seq<&str>,
    update: Seq<&str>,
    returning: Seq<&str>,
) -> Seq<char> {
    "INSERT INTO "@ + quoted(d, table) + " ("@ + name_list(d, pair_columns(values)) + ") VALUES ("@
        + bind_list(d, 0, values.len()) + ") "@ + upsert_clause_text(
        d,
        str_views(conflict),
        str_views(update),
    ) + returning_clause(d, str_views(returning))
}

/// Compile an `INSERT ... ON CONFLICT` (upsert) for `M`.
pub fn upsert<M: Model>(
    dialect: Dialect,
    table: &str,
    values: &[(&'static str, Value)],
    conflict: &[&str],
    update: &[&str],
    returning: &[&str],
) -> (r: CompiledSql)
    ensures
        r.sql@ == upsert_text(dialect, table@, values@, conflict@, update@, returning@),
        views_of(r.binds@) == pair_values(values@),
{
    let mut c = Compiler::new(dialect);
    c.push_str("INSERT INTO ");
    c.push_quoted(table);
    c.push_str(" (");
    c.push_pair_names(values);
    c.push_str(") VALUES (");
    c.push_bind_row(values);
    c.push_str(") ");
    c.push_upsert(conflict, update);
    c.push_returning(returning);
    proof {
        assert(c.spec_sql() =~= upsert_text(dialect, table@, values@, conflict@, update@, returning@));
        assert(c.spec_binds() =~= pair_values(values@));
    }
    c.finish()
}

impl Compiler {
    /// Appends `"c1" = $k+1, "c2" = $k+2, ...` binding the values of `sets`.
    pub fn push_set_list(&mut self, sets: &[(&'static str, Value)])
        ensures
            final(self).spec_dialect() == old(self).spec_dialect(),
            final(self).spec_sql() == old(self).spec_sql() + set_list(
                old(self).spec_dialect(),
                pair_columns(sets@),
                old(self).spec_binds().len(),
            ),
            final(self).spec_binds() == old(self).spec_binds() + pair_values(sets@),
    {
        let ghost d = self.spec_dialect();
        let ghost k = self.spec_binds().len();
        let ghost s0 = self.spec_sql();
        let ghost b0 = self.spec_binds();
        let ghost cols = pair_columns(sets@);
        let ghost parts = Seq::new(
            cols.len(),
            |i: int| quoted(d, cols[i]) + " = "@ + placeholder_text(d, k + i as nat),
        );
        let mut i: usize = 0;
        proof {
            assert(parts.take(0) =~= Seq::<Seq<char>>::empty());
            assert(pair_values(sets@.take(0)) =~= Seq::<ValueView>::empty());
            assert(s0 + Seq::<char>::empty() =~= s0);
            assert(b0 + Seq::<ValueView>::empty() =~= b0);
        }
        while i < sets.len()
            invariant
                i <= sets@.len(),
                self.spec_dialect() == d,
                b0.len() == k,
                cols == pair_columns(sets@),
                parts == Seq::new(
                    cols.len(),
                    |i: int| quoted(d, cols[i]) + " = "@ + placeholder_text(d, k + i as nat),
                ),
                self.spec_sql() == s0 + sep_join(parts.take(i as int), ", "@),
                self.spec_binds() == b0 + pair_values(sets@.take(i as int)),
            decreases sets@.len() - i,
        {
            proof {
                lemma_views_of_index(Seq::<Value>::empty());
                assert(pair_values(sets@.take(i + 1)) =~= pair_values(sets@.take(i as int)).push(
                    sets@[i as int].1@,
                ));
                assert(self.spec_binds().len() == k + i) by {
                    assert(pair_values(sets@.take(i as int)).len() == i);
                }
            }
            if i > 0 {
                self.push_str(", ");
            }
            self.push_quoted(sets[i].0);
            self.push_str(" = ");
            self.push_bind(copy_value(&sets[i].1));
            proof {
                lemma_sep_join_push(parts.take(i as int), ", "@, parts[i as int]);
                assert(parts.take(i as int).push(parts[i as int]) =~= parts.take(i + 1));
                assert(self.spec_sql() =~= s0 + sep_join(parts.take(i + 1), ", "@));
                assert(self.spec_binds() =~= b0 + pair_values(sets@.take(i + 1)));
            }
            i = i + 1;
        }
        proof {
            assert(parts.take(sets@.len() as int) =~= parts);
            assert(sets@.take(sets@.len() as int) =~= sets@);
        }
    }
}

/// The `UPDATE` statement `update` compiles.
pub open spec fn update_text(
    d: Dialect,
    table: Seq<char>,
    sets: Seq<(&'static str, Value)>,
    filter: FilterNode,
    returning: Seq<&str>,
) -> (Seq<char>, Seq<ValueView>, bool) {
    let w = cond_clause(d, " WHERE "@, filter, sets.len());
    (
        "UPDATE "@ + quoted(d, table) + " SET "@ + set_list(d, pair_columns(sets), 0) + w.0
            + returning_clause(d, str_views(returning)),
        pair_values(sets) + w.1,
        w.2,
    )
}

/// Compile an `UPDATE` for `M`.
pub fn update<M: Model>(
    dialect: Dialect,
    table: &str,
    sets: &[(&'static str, Value)],
    filter: &FilterNode,
    returning: &[&str],
) -> (r: CompiledSql)
    requires
        update_text(dialect, table@, sets@, *filter, returning@).2,
    ensures
        r.sql@ == update_text(dialect, table@, sets@, *filter, returning@).0,
        views_of(r.binds@) == update_text(dialect, table@, sets@, *filter, returning@).1,
{
    let mut c = Compiler::new(dialect);
    c.push_str("UPDATE ");
    c.push_quoted(table);
    c.push_str(" SET ");
    c.push_set_list(sets);
    proof {
        assert(c.spec_binds() =~= pair_values(sets@));
        assert(pair_values(sets@).len() == sets@.len());
    }
    c.push_cond(" WHERE ", filter);
    c.push_returning(returning);
    proof {
        let t = update_text(dialect, table@, sets@, *filter, returning@);
        assert(c.spec_sql() =~= t.0);
        assert(c.spec_binds() =~= t.1);
    }
    c.finish()
}

/// The `DELETE` statement `delete` compiles.
pub open spec fn delete_text(d: Dialect, table: Seq<char>, filter: FilterNode, returning: Seq<&str>) -> (
    Seq<char>,
    Seq<ValueView>,
    bool,
) {
    let w = cond_clause(d, " WHERE "@, filter, 0);
    (
        "DELETE FROM "@ + quoted(d, table) + w.0 + returning_clause(d, str_views(returning)),
        w.1,
        w.2,
    )
}

/// Compile a `DELETE` for `M`.
pub fn delete<M: Model>(dialect: Dialect, table: &str, filter: &FilterNode, returning: &[&str]) -> (r: CompiledSql)
    requires
        delete_text(dialect, table@, *filter, returning@).2,
    ensures
        r.sql@ == delete_text(dialect, table@, *filter, returning@).0,
        views_of(r.binds@) == delete_text(dialect, table@, *filter, returning@).1,
{
    let mut c = Compiler::new(dialect);
    c.push_str("DELETE FROM ");
    c.push_quoted(table);
    c.push_cond(" WHERE ", filter);
    c.push_returning(returning);
    proof {
        let t = delete_text(dialect, table@, *filter, returning@);
        assert(c.spec_sql() =~= t.0);
        assert(c.spec_binds() =~= t.1);
    }
    c.finish()
}


/// The SQL of a join kind; a full join is spelled `FULL OUTER JOIN` on Postgres.
pub open spec fn join_kind_text(d: Dialect, kind: JoinKind) -> Seq<char> {
    match kind {
        JoinKind::Inner => "INNER JOIN"@,
        JoinKind::Left => "LEFT JOIN"@,
        JoinKind::Right => "RIGHT JOIN"@,
        JoinKind::Full => if d is Postgres {
            "FULL OUTER JOIN"@
        } else {
            "FULL JOIN"@
        },
    }
}

fn join_kind_sql(dialect: Dialect, kind: JoinKind) -> (r: &'static str)
    ensures
        r@ == join_kind_text(dialect, kind),
{
    match kind {
        JoinKind::Inner => "INNER JOIN",
        JoinKind::Left => "LEFT JOIN",
        JoinKind::Right => "RIGHT JOIN",
        JoinKind::Full => {
            if matches!(dialect, Dialect::Postgres) {
                "FULL OUTER JOIN"
            } else {
                "FULL JOIN"
            }
        },
    }
}

/// `, "q"."c1", "q"."c2", ...` (or `, "q".*`) for the right side of a join.
pub open spec fn right_columns_text(d: Dialect, qualifier: Seq<char>, cols: Seq<Seq<char>>) -> Seq<char>
    decreases cols.len(),
{
    if cols.len() == 0 {
        Seq::empty()
    } else {
        right_columns_text(d, qualifier, cols.drop_last()) + ", "@ + qcol(d, qualifier, cols.last())
    }
}

/// The projection part of a join statement.
pub open spec fn join_projection_text(
    d: Dialect,
    left_table: Seq<char>,
    left_columns: Seq<&str>,
    qualifier: Seq<char>,
    right_columns: Seq<&str>,
    distinct: bool,
) -> Seq<char> {
    "SELECT "@ + distinct_text(distinct) + if left_columns.len() == 0 {
        quoted(d, left_table) + ".*"@
    } else {
        column_list(d, left_table, str_views(left_columns))
    } + if right_columns.len() == 0 {
        ", "@ + quoted(d, qualifier) + ".*"@
    } else {
        right_columns_text(d, qualifier, str_views(right_columns))
    }
}

/// The `FROM ... JOIN ...` part of a join statement.
pub open spec fn join_from_text(
    d: Dialect,
    left_table: Seq<char>,
    right_table: Seq<char>,
    right_alias: Option<Seq<char>>,
    kind: JoinKind,
) -> Seq<char> {
    " FROM "@ + quoted(d, left_table) + " "@ + join_kind_text(d, kind) + " "@ + quoted(d, right_table)
        + match right_alias {
        Some(a) => " AS "@ + quoted(d, a),
        None => Seq::empty(),
    }
}

/// The projection and `FROM ... JOIN ...` part of a join statement.
pub open spec fn join_head_text(
    d: Dialect,
    left_table: Seq<char>,
    left_columns: Seq<&str>,
    right_table: Seq<char>,
    right_columns: Seq<&str>,
    right_alias: Option<Seq<char>>,
    kind: JoinKind,
    distinct: bool,
) -> Seq<char> {
    let q = match right_alias {
        Some(a) => a,
        None => right_table,
    };
    join_projection_text(d, left_table, left_columns, q, right_columns, distinct) + join_from_text(
        d,
        left_table,
        right_table,
        right_alias,
        kind,
    )
}

/// The statement `join_select_with_columns` compiles.
pub open spec fn join_text<M>(
    d: Dialect,
    left_table: Seq<char>,
    left_columns: Seq<&str>,
    right_table: Seq<char>,
    right_columns: Seq<&str>,
    right_alias: Option<Seq<char>>,
    kind: JoinKind,
    on: FilterNode,
    filter: FilterNode,
    order: Seq<OrderBy<M>>,
    limit: Option<u64>,
    offset: Option<u64>,
    distinct: bool,
) -> (Seq<char>, Seq<ValueView>, bool) {
    let o = filter_sql(d, on, 0);
    let w = cond_clause(d, " WHERE "@, filter, o.1.len());
    (
        join_head_text(d, left_table, left_columns, right_table, right_columns, right_alias, kind, distinct)
            + " ON "@ + o.0 + w.0 + order_clause(d, order) + number_clause(" LIMIT "@, limit)
            + number_clause(" OFFSET "@, offset),
        o.1 + w.1,
        o.2 && w.2,
    )
}

/// The view of an optional string slice.
pub open spec fn opt_view(a: Option<&str>) -> Option<Seq<char>> {
    match a {
        Some(s) => Some(s@),
        None => None,
    }
}

impl Compiler {
    fn push_right_columns(&mut self, qualifier: &str, cols: &[&str])
        ensures
            final(self).spec_dialect() == old(self).spec_dialect(),
            final(self).spec_sql() == old(self).spec_sql() + right_columns_text(
                old(self).spec_dialect(),
                qualifier@,
                str_views(cols@),
            ),
            final(self).spec_binds() == old(self).spec_binds(),
    {
        let ghost d = self.spec_dialect();
        let ghost s0 = self.spec_sql();
        let ghost cv = str_views(cols@);
        let mut i: usize = 0;
        proof {
            assert(cv.take(0) =~= Seq::<Seq<char>>::empty());
            assert(s0 + Seq::<char>::empty() =~= s0);
        }
        while i < cols.len()
            invariant
                i <= cols@.len(),
                self.spec_dialect() == d,
                self.spec_binds() == old(self).spec_binds(),
                cv == str_views(cols@),
                self.spec_sql() == s0 + right_columns_text(d, qualifier@, cv.take(i as int)),
            decreases cols@.len() - i,
        {
            self.push_str(", ");
            self.push_column(qualifier, cols[i]);
            proof {
                assert(cv.take(i + 1).drop_last() =~= cv.take(i as int));
                assert(self.spec_sql() =~= s0 + right_columns_text(d, qualifier@, cv.take(i + 1)));
            }
            i = i + 1;
        }
        proof {
            assert(cv.take(cols@.len() as int) =~= cv);
        }
    }
}

impl Compiler {
    #[verifier::rlimit(60)]
    #[verifier::spinoff_prover]
    fn push_join_projection(
        &mut self,
        left_table: &str,
        left_columns: &[&str],
        qualifier: &str,
        right_columns: &[&str],
        distinct: bool,
    )
        ensures
            final(self).spec_dialect() == old(self).spec_dialect(),
            final(self).spec_sql() == old(self).spec_sql() + join_projection_text(
                old(self).spec_dialect(),
                left_table@,
                left_columns@,
                qualifier@,
                right_columns@,
                distinct,
            ),
            final(self).spec_binds() == old(self).spec_binds(),
    {
        let ghost d = self.spec_dialect();
        let ghost s0 = self.spec_sql();
        self.push_str("SELECT ");
        if distinct {
            self.push_str("DISTINCT ");
        }
        let ghost s1 = self.spec_sql();
        if left_columns.len() == 0 {
            self.push_quoted(left_table);
            self.push_str(".*");
        } else {
            self.push_column_list(left_table, left_columns);
        }
        let ghost s2 = self.spec_sql();
        if right_columns.len() == 0 {
            self.push_str(", ");
            self.push_quoted(qualifier);
            self.push_str(".*");
        } else {
            self.push_right_columns(qualifier, right_columns);
        }
        proof {
            assert(s1 =~= s0 + ("SELECT "@ + distinct_text(distinct)));
            assert(self.spec_sql() =~= s0 + join_projection_text(
                d,
                left_table@,
                left_columns@,
                qualifier@,
                right_columns@,
                distinct,
            ));
        }
    }

    fn push_join_from(
        &mut self,
        left_table: &str,
        right_table: &str,
        right_alias: Option<&str>,
        join_kind: JoinKind,
    )
        ensures
            final(self).spec_dialect() == old(self).spec_dialect(),
            final(self).spec_sql() == old(self).spec_sql() + join_from_text(
                old(self).spec_dialect(),
                left_table@,
                right_table@,
                opt_view(right_alias),
                join_kind,
            ),
            final(self).spec_binds() == old(self).spec_binds(),
    {
        let ghost d = self.spec_dialect();
        let ghost s0 = self.spec_sql();
        self.push_str(" FROM ");
        self.push_quoted(left_table);
        self.push_str(" ");
        self.push_str(join_kind_sql(self.dialect, join_kind));
        self.push_str(" ");
        self.push_quoted(right_table);
        let ghost s4 = self.spec_sql();
        match right_alias {
            Some(a) => {
                self.push_str(" AS ");
                self.push_quoted(a);
            },
            None => {},
        }
        proof {
            assert(self.spec_sql() =~= s4 + match opt_view(right_alias) {
                Some(a) => " AS "@ + quoted(d, a),
                None => Seq::<char>::empty(),
            });
            assert(self.spec_sql() =~= s0 + join_from_text(
                d,
                left_table@,
                right_table@,
                opt_view(right_alias),
                join_kind,
            ));
        }
    }

    /// Appends the projection and `FROM ... JOIN ...` part of a join.
    pub fn push_join_head(
        &mut self,
        left_table: &str,
        left_columns: &[&str],
        right_table: &str,
        right_columns: &[&str],
        right_alias: Option<&str>,
        join_kind: JoinKind,
        distinct: bool,
    )
        ensures
            final(self).spec_dialect() == old(self).spec_dialect(),
            final(self).spec_sql() == old(self).spec_sql() + join_head_text(
                old(self).spec_dialect(),
                left_table@,
                left_columns@,
                right_table@,
                right_columns@,
                opt_view(right_alias),
                join_kind,
                distinct,
            ),
            final(self).spec_binds() == old(self).spec_binds(),
    {
        let qualifier: &str = match right_alias {
            Some(a) => a,
            None => right_table,
        };
        self.push_join_projection(left_table, left_columns, qualifier, right_columns, distinct);
        self.push_join_from(left_table, right_table, right_alias, join_kind);
        proof {
            assert(self.spec_sql() =~= old(self).spec_sql() + join_head_text(
                self.spec_dialect(),
                left_table@,
                left_columns@,
                right_table@,
                right_columns@,
                opt_view(right_alias),
                join_kind,
                distinct,
            ));
        }
    }
}

/// Compile a `SELECT` for a join with the right-hand columns supplied as a slice.
#[verifier::rlimit(60)]
#[verifier::spinoff_prover]
pub fn join_select_with_columns<M: Model>(
    dialect: Dialect,
    left_table: &str,
    left_columns: &[&str],
    right_table: &str,
    right_columns: &[&str],
    right_alias: Option<&str>,
    join_kind: JoinKind,
    on: &FilterNode,
    filter: &FilterNode,
    order: &[OrderBy<M>],
    limit: Option<u64>,
    offset: Option<u64>,
    distinct: bool,
) -> (r: CompiledSql)
    requires
        join_text(
            dialect,
            left_table@,
            left_columns@,
            right_table@,
            right_columns@,
            opt_view(right_alias),
            join_kind,
            *on,
            *filter,
            order@,
            limit,
            offset,
            distinct,
        ).2,
    ensures
        ({
            let t = join_text(
                dialect,
                left_table@,
                left_columns@,
                right_table@,
                right_columns@,
                opt_view(right_alias),
                join_kind,
                *on,
                *filter,
                order@,
                limit,
                offset,
                distinct,
            );
            r.sql@ == t.0 && views_of(r.binds@) == t.1
        }),
{
    let ghost t = join_text(
        dialect,
        left_table@,
        left_columns@,
        right_table@,
        right_columns@,
        opt_view(right_alias),
        join_kind,
        *on,
        *filter,
        order@,
        limit,
        offset,
        distinct,
    );
    let mut c = Compiler::new(dialect);
    c.push_join_head(left_table, left_columns, right_table, right_columns, right_alias, join_kind, distinct);
    let ghost s5 = c.spec_sql();
    c.push_str(" ON ");
    proof {
        assert(c.spec_binds().len() == 0);
    }
    c.push_filter(on);
    let ghost s6 = c.spec_sql();
    c.push_cond(" WHERE ", filter);
    c.push_order_clause(order);
    c.push_number_clause(" LIMIT ", limit);
    c.push_number_clause(" OFFSET ", offset);
    proof {
        assert(c.spec_sql() =~= t.0);
        assert(c.spec_binds() =~= t.1);
    }
    c.finish()
}

/// Compile a `SELECT` for a join between `M` and `J`, projecting both models'
/// declared columns.
pub fn join_select<M: Model, J: Model>(
    dialect: Dialect,
    left_table: &str,
    right_table: &str,
    right_alias: Option<&str>,
    join_kind: JoinKind,
    on: &FilterNode,
    filter: &FilterNode,
    order: &[OrderBy<M>],
    limit: Option<u64>,
    offset: Option<u64>,
    distinct: bool,
) -> (r: CompiledSql)
    requires
        join_text(
            dialect,
            left_table@,
            M::COLUMNS@,
            right_table@,
            J::COLUMNS@,
            opt_view(right_alias),
            join_kind,
            *on,
            *filter,
            order@,
            limit,
            offset,
            distinct,
        ).2,
    ensures
        ({
            let t = join_text(
                dialect,
                left_table@,
                M::COLUMNS@,
                right_table@,
                J::COLUMNS@,
                opt_view(right_alias),
                join_kind,
                *on,
                *filter,
                order@,
                limit,
                offset,
                distinct,
            );
            r.sql@ == t.0 && views_of(r.binds@) == t.1
        }),
{
    join_select_with_columns(
        dialect,
        left_table,
        M::COLUMNS,
        right_table,
        J::COLUMNS,
        right_alias,
        join_kind,
        on,
        filter,
        order,
        limit,
        offset,
        distinct,
    )
}

/// The argument of an aggregate, cast to a float for `AVG` so the result
/// decodes as a double on every backend.
pub open spec fn aggregate_arg(d: Dialect, agg: AggregateEntry) -> Seq<char> {
    if agg.kind is Avg {
        match d {
            Dialect::Postgres => qcol(d, agg.table@, agg.column@) + "::double precision"@,
            Dialect::MySql => "CAST("@ + qcol(d, agg.table@, agg.column@) + " AS DOUBLE)"@,
            Dialect::Sqlite => "CAST("@ + qcol(d, agg.table@, agg.column@) + " AS REAL)"@,
        }
    } else {
        qcol(d, agg.table@, agg.column@)
    }
}

/// One aggregate projection item: `FN([DISTINCT ]arg) AS "alias"`.
pub open spec fn aggregate_item(d: Dialect, agg: AggregateEntry) -> Seq<char> {
    kind_sql(agg.kind) + "("@ + if agg.kind is CountDistinct {
        "DISTINCT "@
    } else {
        Seq::empty()
    } + aggregate_arg(d, agg) + ")"@ + " AS "@ + quoted(d, agg.alias@)
}

/// The statement `aggregate_select` compiles.
pub open spec fn aggregate_text<M>(
    d: Dialect,
    table: Seq<char>,
    aggregates: Seq<AggregateEntry>,
    filter: FilterNode,
    group_by: Seq<&str>,
    having: FilterNode,
    order: Seq<OrderBy<M>>,
    limit: Option<u64>,
    offset: Option<u64>,
) -> (Seq<char>, Seq<ValueView>, bool) {
    let w = cond_clause(d, " WHERE "@, filter, 0);
    let h = cond_clause(d, " HAVING "@, having, w.1.len());
    (
        "SELECT "@ + sep_join(aggregates.map_values(|a: AggregateEntry| aggregate_item(d, a)), ", "@)
            + " FROM "@ + quoted(d, table) + w.0 + if group_by.len() == 0 {
            Seq::empty()
        } else {
            " GROUP BY "@ + column_list(d, table, str_views(group_by))
        } + h.0 + order_clause(d, order) + number_clause(" LIMIT "@, limit) + number_clause(
            " OFFSET "@,
            offset,
        ),
        w.1 + h.1,
        w.2 && h.2,
    )
}

impl Compiler {
    /// Appends one aggregate projection item.
    pub fn push_aggregate(&mut self, agg: &AggregateEntry)
        ensures
            final(self).spec_dialect() == old(self).spec_dialect(),
            final(self).spec_sql() == old(self).spec_sql() + aggregate_item(
                old(self).spec_dialect(),
                *agg,
            ),
            final(self).spec_binds() == old(self).spec_binds(),
    {
        let ghost d = self.spec_dialect();
        let ghost s0 = self.spec_sql();
        self.push_str(agg.kind.sql_fn());
        self.push_str("(");
        if matches!(agg.kind, AggregateKind::CountDistinct) {
            self.push_str("DISTINCT ");
        }
        let ghost s1 = self.spec_sql();
        if matches!(agg.kind, AggregateKind::Avg) {
            match self.dialect {
                Dialect::Postgres => {
                    self.push_column(agg.table, agg.column);
                    self.push_str("::double precision");
                },
                Dialect::MySql => {
                    self.push_str("CAST(");
                    self.push_column(agg.table, agg.column);
                    self.push_str(" AS DOUBLE)");
                },
                Dialect::Sqlite => {
                    self.push_str("CAST(");
                    self.push_column(agg.table, agg.column);
                    self.push_str(" AS REAL)");
                },
            }
        } else {
            self.push_column(agg.table, agg.column);
        }
        proof {
            assert(self.spec_sql() =~= s1 + aggregate_arg(d, *agg));
        }
        self.push_str(")");
        self.push_str(" AS ");
        self.push_quoted(agg.alias.as_str());
        proof {
            assert(self.spec_sql() =~= s0 + aggregate_item(d, *agg));
        }
    }
}

/// Compile an aggregate `SELECT` for `M`, with `GROUP BY` and `HAVING` when
/// their inputs are non-empty.
#[verifier::rlimit(60)]
#[verifier::spinoff_prover]
pub fn aggregate_select<M: Model>(
    dialect: Dialect,
    table: &str,
    aggregates: &[AggregateEntry],
    filter: &FilterNode,
    group_by: &[&str],
    having: &FilterNode,
    order: &[OrderBy<M>],
    limit: Option<u64>,
    offset: Option<u64>,
) -> (r: CompiledSql)
    requires
        aggregate_text(
            dialect,
            table@,
            aggregates@,
            *filter,
            group_by@,
            *having,
            order@,
            limit,
            offset,
        ).2,
    ensures
        ({
            let t = aggregate_text(
                dialect,
                table@,
                aggregates@,
                *filter,
                group_by@,
                *having,
                order@,
                limit,
                offset,
            );
            r.sql@ == t.0 && views_of(r.binds@) == t.1
        }),
{
    let ghost t = aggregate_text(
        dialect,
        table@,
        aggregates@,
        *filter,
        group_by@,
        *having,
        order@,
        limit,
        offset,
    );
    let mut c = Compiler::new(dialect);
    c.push_str("SELECT ");
    let ghost s0 = c.spec_sql();
    let ghost parts = aggregates@.map_values(|a: AggregateEntry| aggregate_item(dialect, a));
    let mut i: usize = 0;
    proof {
        assert(parts.take(0) =~= Seq::<Seq<char>>::empty());
        assert(s0 + Seq::<char>::empty() =~= s0);
    }
    while i < aggregates.len()
        invariant
            i <= aggregates@.len(),
            c.spec_dialect() == dialect,
            c.spec_binds() == Seq::<ValueView>::empty(),
            parts == aggregates@.map_values(|a: AggregateEntry| aggregate_item(dialect, a)),
            c.spec_sql() == s0 + sep_join(parts.take(i as int), ", "@),
        decreases aggregates@.len() - i,
    {
        if i > 0 {
            c.push_str(", ");
        }
        c.push_aggregate(&aggregates[i]);
        proof {
            lemma_sep_join_push(parts.take(i as int), ", "@, parts[i as int]);
            assert(parts.take(i as int).push(parts[i as int]) =~= parts.take(i + 1));
            assert(c.spec_sql() =~= s0 + sep_join(parts.take(i + 1), ", "@));
        }
        i = i + 1;
    }
    proof {
        assert(parts.take(aggregates@.len() as int) =~= parts);
    }
    c.push_str(" FROM ");
    c.push_quoted(table);
    let ghost s1 = c.spec_sql();
    c.push_cond(" WHERE ", filter);
    let ghost s2 = c.spec_sql();
    if group_by.len() > 0 {
        c.push_str(" GROUP BY ");
        c.push_column_list(table, group_by);
    }
    let ghost s3 = c.spec_sql();
    proof {
        assert(s3 =~= s2 + if group_by@.len() == 0 {
            Seq::<char>::empty()
        } else {
            " GROUP BY "@ + column_list(dialect, table@, str_views(group_by@))
        });
    }
    c.push_cond(" HAVING ", having);
    c.push_order_clause(order);
    c.push_number_clause(" LIMIT ", limit);
    c.push_number_clause(" OFFSET ", offset);
    proof {
        assert(c.spec_sql() =~= t.0);
        assert(c.spec_binds() =~= t.1);
    }
    c.finish()
}

// ---------------------------------------------------------------------------
// CTEs and set operations
// ---------------------------------------------------------------------------

/// The `name AS (body)` parts of a `WITH` clause, the binds they carry, and
/// whether each body can be renumbered after the binds before it.
pub open spec fn cte_parts(d: Dialect, ctes: Seq<Cte>) -> (Seq<Seq<char>>, Seq<ValueView>, bool)
    decreases ctes.len(),
{
    if ctes.len() == 0 {
        (Seq::empty(), Seq::empty(), true)
    } else {
        let p = cte_parts(d, ctes.drop_last());
        let c = ctes.last();
        (
            p.0.push(quoted(d, c.name@) + " AS ("@ + renumbered_text(c.compiled, p.1.len()) + ")"@),
            p.1 + views_of(c.compiled.binds@),
            p.2 && renumber_ok(c.compiled, p.1.len()),
        )
    }
}

/// Whether any CTE is recursive.
pub open spec fn any_recursive(ctes: Seq<Cte>) -> bool
    decreases ctes.len(),
{
    if ctes.len() == 0 {
        false
    } else {
        any_recursive(ctes.drop_last()) || ctes.last().recursive
    }
}

/// The statement `with_cte_prefix` produces from a main statement with text
/// `sql` and binds `binds`.
pub open spec fn with_cte_text(d: Dialect, ctes: Seq<Cte>, sql: Seq<char>, binds: Seq<ValueView>) -> (
    Seq<char>,
    Seq<ValueView>,
    bool,
) {
    if ctes.len() == 0 {
        (sql, binds, true)
    } else {
        let p = cte_parts(d, ctes);
        (
            if any_recursive(ctes) {
                "WITH RECURSIVE "@
            } else {
                "WITH "@
            } + sep_join(p.0, ", "@) + " "@ + renumber_seq(sql, binds.len(), p.1.len()),
            p.1 + binds,
            p.2 && renumber_seq_ok(sql, binds.len(), p.1.len()),
        )
    }
}

/// Prepends a `WITH` (or `WITH RECURSIVE`) clause to `main` using `ctes`.
///
/// Placeholders are renumbered so that the CTE binds come first and the main
/// query's placeholders follow.
pub fn with_cte_prefix(dialect: Dialect, ctes: &[Cte], main: CompiledSql) -> (r: CompiledSql)
    requires
        with_cte_text(dialect, ctes@, main.sql@, views_of(main.binds@)).2,
    ensures
        r.sql@ == with_cte_text(dialect, ctes@, main.sql@, views_of(main.binds@)).0,
        views_of(r.binds@) == with_cte_text(dialect, ctes@, main.sql@, views_of(main.binds@)).1,
{
    proof {
        lemma_views_of_index(main.binds@);
    }
    if ctes.len() == 0 {
        return main;
    }
    let mut recursive = false;
    let mut binds: Vec<Value> = Vec::new();
    let mut text = String::new();
    let mut i: usize = 0;
    proof {
        assert(ctes@.take(0) =~= Seq::<Cte>::empty());
    }
    while i < ctes.len()
        invariant
            i <= ctes@.len(),
            ({
                let p = cte_parts(dialect, ctes@.take(i as int));
                &&& text@ == sep_join(p.0, ", "@)
                &&& views_of(binds@) == p.1
                &&& binds@.len() == p.1.len()
            }),
            recursive == any_recursive(ctes@.take(i as int)),
            cte_parts(dialect, ctes@).2 ==> cte_parts(dialect, ctes@.take(i as int)).2,
            with_cte_text(dialect, ctes@, main.sql@, views_of(main.binds@)).2,
            views_of(main.binds@).len() == main.binds@.len(),
        decreases ctes@.len() - i,
    {
        let ghost p = cte_parts(dialect, ctes@.take(i as int));
        proof {
            assert(ctes@.take(i + 1).drop_last() =~= ctes@.take(i as int));
            assert(ctes@.take(i + 1).last() == ctes@[i as int]);
            lemma_cte_parts_prefix_ok(dialect, ctes@, i + 1);
            lemma_views_of_index(binds@);
        }
        let cte = &ctes[i];
        if cte.recursive {
            recursive = true;
        }
        let shifted = cte.compiled.renumbered(binds.len());
        if i > 0 {
            text.append(", ");
        }
        dialect.push_quoted(&mut text, cte.name);
        text.append(" AS (");
        text.append(shifted.sql.as_str());
        text.append(")");
        let ghost b0 = binds@;
        let mut extra = shifted.binds;
        let ghost e = extra@;
        binds.append(&mut extra);
        proof {
            lemma_views_of_add(b0, e);
            lemma_views_of_index(b0 + e);
            let item = quoted(dialect, ctes@[i as int].name@) + " AS ("@ + renumbered_text(
                ctes@[i as int].compiled,
                p.1.len(),
            ) + ")"@;
            lemma_sep_join_push(p.0, ", "@, item);
            assert(text@ =~= sep_join(p.0.push(item), ", "@));
            assert(any_recursive(ctes@.take(i + 1)) == (any_recursive(ctes@.take(i as int))
                || ctes@[i as int].recursive));
        }
        i = i + 1;
    }
    proof {
        assert(ctes@.take(ctes@.len() as int) =~= ctes@);
        lemma_views_of_index(binds@);
    }
    let main_shifted = main.renumbered(binds.len());
    let mut sql = String::new();
    if recursive {
        sql.append("WITH RECURSIVE ");
    } else {
        sql.append("WITH ");
    }
    sql.append(text.as_str());
    sql.append(" ");
    sql.append(main_shifted.sql.as_str());
    let ghost b0 = binds@;
    let mut extra = main_shifted.binds;
    let ghost e = extra@;
    binds.append(&mut extra);
    proof {
        lemma_views_of_add(b0, e);
        assert(sql@ =~= with_cte_text(dialect, ctes@, main.sql@, views_of(main.binds@)).0);
    }
    CompiledSql { sql, binds }
}

/// A prefix of acceptable CTEs is acceptable.
pub proof fn lemma_cte_parts_prefix_ok(d: Dialect, ctes: Seq<Cte>, i: int)
    requires
        0 <= i <= ctes.len(),
        cte_parts(d, ctes).2,
    ensures
        cte_parts(d, ctes.take(i)).2,
    decreases ctes.len(),
{
    if i == ctes.len() {
        assert(ctes.take(i) =~= ctes);
    } else {
        lemma_cte_parts_prefix_ok(d, ctes.drop_last(), i);
        assert(ctes.drop_last().take(i) =~= ctes.take(i));
    }
}

/// The compound statement `set_op` produces, before any `WITH` clause.
pub open spec fn set_op_body(d: Dialect, op: SetOp, left: CompiledSql, right: CompiledSql) -> Seq<char> {
    let r = renumbered_text(right, left.binds@.len());
    if d is Sqlite {
        "SELECT * FROM ("@ + left.sql@ + ") AS __rz_l "@ + set_op_text(op) + " SELECT * FROM ("@ + r
            + ") AS __rz_r"@
    } else {
        "("@ + left.sql@ + ") "@ + set_op_text(op) + " ("@ + r + ")"@
    }
}

/// Combines two compiled `SELECT`s with a set operation and prepends CTEs.
///
/// Right-hand placeholders are renumbered so that the combined statement uses
/// one contiguous parameter sequence.
pub fn set_op(dialect: Dialect, op: SetOp, ctes: &[Cte], left: CompiledSql, right: CompiledSql) -> (r: CompiledSql)
    requires
        renumber_ok(right, left.binds@.len()),
        with_cte_text(
            dialect,
            ctes@,
            set_op_body(dialect, op, left, right),
            views_of(left.binds@) + views_of(right.binds@),
        ).2,
    ensures
        ({
            let t = with_cte_text(
                dialect,
                ctes@,
                set_op_body(dialect, op, left, right),
                views_of(left.binds@) + views_of(right.binds@),
            );
            r.sql@ == t.0 && views_of(r.binds@) == t.1
        }),
{
    let right_shifted = right.renumbered(left.binds.len());
    let ghost lb = left.binds@;
    let mut binds = left.binds;
    let mut extra = right_shifted.binds;
    let ghost e = extra@;
    binds.append(&mut extra);
    proof {
        lemma_views_of_add(lb, e);
    }
    let mut sql = String::new();
    if matches!(dialect, Dialect::Sqlite) {
        sql.append("SELECT * FROM (");
        sql.append(left.sql.as_str());
        sql.append(") AS __rz_l ");
        sql.append(op.sql());
        sql.append(" SELECT * FROM (");
        sql.append(right_shifted.sql.as_str());
        sql.append(") AS __rz_r");
    } else {
        sql.append("(");
        sql.append(left.sql.as_str());
        sql.append(") ");
        sql.append(op.sql());
        sql.append(" (");
        sql.append(right_shifted.sql.as_str());
        sql.append(")");
    }
    proof {
        assert(sql@ =~= set_op_body(dialect, op, left, right));
    }
    let body = CompiledSql { sql, binds };
    with_cte_prefix(dialect, ctes, body)
}

} // verus!
