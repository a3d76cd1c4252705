//! The SQL dialects the compiler targets.
//!
//! A dialect decides how identifiers are quoted, how bind parameters are
//! written, whether DML can return rows, and how an upsert is phrased.
use vstd::prelude::*;

use crate::text::{decimal, lemma_sep_join_push, push_char, push_decimal, sep_join};

verus! {

/// A target SQL dialect.
#[derive(Debug, Clone, Copy, PartialEq, Eq)]
pub enum Dialect {
    /// PostgreSQL: `"ident"` quoting and numbered `$n` parameters.
    Postgres,
    /// SQLite: `` `ident` `` quoting and positional `?` parameters.
    Sqlite,
    /// MySQL / MariaDB: `` `ident` `` quoting and positional `?` parameters.
    MySql,
}

/// The quote character the dialect wraps identifiers in.
pub open spec fn quote_char(d: Dialect) -> char {
    match d {
        Dialect::Postgres => '"',
        _ => '`',
    }
}

/// `s` with every occurrence of `q` doubled.
pub open spec fn escape_quotes(s: Seq<char>, q: char) -> Seq<char>
    decreases s.len(),
{
    if s.len() == 0 {
        Seq::empty()
    } else {
        escape_quotes(s.drop_last(), q) + if s.last() == q {
            seq![q, q]
        } else {
            seq![s.last()]
        }
    }
}

/// The quoted form of the identifier `s`.
pub open spec fn quoted(d: Dialect, s: Seq<char>) -> Seq<char> {
    seq![quote_char(d)] + escape_quotes(s, quote_char(d)) + seq![quote_char(d)]
}

/// The dialect's marker for the bind parameter at 0-based position `idx`.
pub open spec fn placeholder_text(d: Dialect, idx: nat) -> Seq<char> {
    match d {
        Dialect::Postgres => seq!['$'] + decimal(idx + 1),
        _ => seq!['?'],
    }
}

/// Whether the dialect numbers its parameters (`$1`, `$2`, ...).
pub open spec fn numbered(d: Dialect) -> bool {
    d is Postgres
}

/// The dialect's name as reported by [`Dialect::name`].
pub open spec fn dialect_name(d: Dialect) -> Seq<char> {
    match d {
        Dialect::Postgres => "postgres"@,
        Dialect::Sqlite => "sqlite"@,
        Dialect::MySql => "mysql"@,
    }
}

/// The `SET` list of an upsert: `c = EXCLUDED.c` (or `c = VALUES(c)` on MySQL).
pub open spec fn upsert_assignment(d: Dialect, col: Seq<char>) -> Seq<char> {
    match d {
        Dialect::MySql => quoted(d, col) + " = VALUES("@ + quoted(d, col) + ")"@,
        _ => quoted(d, col) + " = EXCLUDED."@ + quoted(d, col),
    }
}

/// The conflict clause of an upsert on `conflict` that updates `update`.
pub open spec fn upsert_clause_text(
    d: Dialect,
    conflict: Seq<Seq<char>>,
    update: Seq<Seq<char>>,
) -> Seq<char> {
    match d {
        Dialect::MySql => if update.len() == 0 {
            "ON DUPLICATE KEY UPDATE "@ + sep_join(
                conflict.map_values(|c: Seq<char>| quoted(d, c) + " = "@ + quoted(d, c)),
                ", "@,
            )
        } else {
            "ON DUPLICATE KEY UPDATE "@ + sep_join(
                update.map_values(|c: Seq<char>| upsert_assignment(d, c)),
                ", "@,
            )
        },
        _ => if update.len() == 0 {
            "ON CONFLICT ("@ + sep_join(conflict, ", "@) + ") DO NOTHING"@
        } else {
            "ON CONFLICT ("@ + sep_join(conflict, ", "@) + ") DO UPDATE SET "@ + sep_join(
                update.map_values(|c: Seq<char>| upsert_assignment(d, c)),
                ", "@,
            )
        },
    }
}

/// The character sequences of a slice of string slices.
pub open spec fn str_views(s: Seq<&str>) -> Seq<Seq<char>> {
    s.map_values(|x: &str| x@)
}

/// Whether the dialect can run `RIGHT JOIN`.
pub open spec fn right_join_ok(d: Dialect) -> bool {
    true
}

/// Whether the dialect can run `FULL OUTER JOIN`; MySQL cannot.
pub open spec fn full_join_ok(d: Dialect) -> bool {
    !(d is MySql)
}

/// Whether the dialect can run `INTERSECT` and `EXCEPT`; MySQL cannot.
pub open spec fn set_difference_ok(d: Dialect) -> bool {
    !(d is MySql)
}

impl Dialect {
    /// Whether the dialect can run `RIGHT JOIN`.
    pub fn supports_right_join(&self) -> (r: bool)
        ensures
            r == right_join_ok(*self),
    {
        true
    }

    /// Whether the dialect can run `FULL OUTER JOIN`.
    pub fn supports_full_join(&self) -> (r: bool)
        ensures
            r == full_join_ok(*self),
    {
        !matches!(self, Dialect::MySql)
    }

    /// Whether the dialect can run `INTERSECT`.
    pub fn supports_intersect(&self) -> (r: bool)
        ensures
            r == set_difference_ok(*self),
    {
        !matches!(self, Dialect::MySql)
    }

    /// Whether the dialect can run `EXCEPT`.
    pub fn supports_except(&self) -> (r: bool)
        ensures
            r == set_difference_ok(*self),
    {
        !matches!(self, Dialect::MySql)
    }

    /// The dialect's name: `postgres`, `sqlite` or `mysql`.
    pub fn name(&self) -> (r: &'static str)
        ensures
            r@ == dialect_name(*self),
    {
        match self {
            Dialect::Postgres => "postgres",
            Dialect::Sqlite => "sqlite",
            Dialect::MySql => "mysql",
        }
    }

    /// Whether `INSERT`/`UPDATE`/`DELETE ... RETURNING` is available.
    pub fn returning_supported(&self) -> (r: bool)
        ensures
            r == !(*self is MySql),
    {
        !matches!(self, Dialect::MySql)
    }

    /// Whether the dialect's parameters are numbered `$1`, `$2`, ...
    pub fn numbered_placeholders(&self) -> (r: bool)
        ensures
            r == numbered(*self),
    {
        matches!(self, Dialect::Postgres)
    }

    /// Appends the quoted form of `ident` to `out`.
    pub fn push_quoted(&self, out: &mut String, ident: &str)
        ensures
            final(out)@ == old(out)@ + quoted(*self, ident@),
    {
        let q = if matches!(self, Dialect::Postgres) {
            '"'
        } else {
            '`'
        };
        push_char(out, q);
        let n = ident.unicode_len();
        let mut i: usize = 0;
        while i < n
            invariant
                n == ident@.len(),
                i <= n,
                q == quote_char(*self),
                out@ == old(out)@ + seq![q] + escape_quotes(ident@.take(i as int), q),
            decreases n - i,
        {
            let c = ident.get_char(i);
            let ghost before = out@;
            push_char(out, c);
            if c == q {
                push_char(out, q);
            }
            proof {
                assert(ident@.take(i + 1).drop_last() =~= ident@.take(i as int));
                assert(ident@.take(i + 1).last() == c);
                if c == q {
                    assert(out@ =~= before + seq![q, q]);
                } else {
                    assert(out@ =~= before + seq![c]);
                }
                assert(out@ =~= old(out)@ + seq![q] + escape_quotes(ident@.take(i + 1), q));
            }
            i = i + 1;
        }
        push_char(out, q);
        proof {
            assert(ident@.take(n as int) =~= ident@);
            assert(out@ =~= old(out)@ + quoted(*self, ident@));
        }
    }

    /// The quoted form of `ident`.
    pub fn quote_ident(&self, ident: &str) -> (r: String)
        ensures
            r@ == quoted(*self, ident@),
    {
        let mut out = String::new();
        self.push_quoted(&mut out, ident);
        proof {
            assert(Seq::<char>::empty() + quoted(*self, ident@) =~= quoted(*self, ident@));
        }
        out
    }

    /// Appends the marker for the bind parameter at 0-based position `idx`.
    pub fn push_placeholder(&self, out: &mut String, idx: usize)
        requires
            idx < usize::MAX,
        ensures
            final(out)@ == old(out)@ + placeholder_text(*self, idx as nat),
    {
        if matches!(self, Dialect::Postgres) {
            push_char(out, '$');
            push_decimal(out, idx as u64 + 1);
            proof {
                assert(out@ =~= old(out)@ + placeholder_text(*self, idx as nat));
            }
        } else {
            push_char(out, '?');
            proof {
                assert(out@ =~= old(out)@ + placeholder_text(*self, idx as nat));
            }
        }
    }

    /// The marker for the bind parameter at 0-based position `idx`.
    pub fn placeholder(&self, idx: usize) -> (r: String)
        requires
            idx < usize::MAX,
        ensures
            r@ == placeholder_text(*self, idx as nat),
    {
        let mut out = String::new();
        self.push_placeholder(&mut out, idx);
        proof {
            assert(Seq::<char>::empty() + placeholder_text(*self, idx as nat) =~= placeholder_text(
                *self,
                idx as nat,
            ));
        }
        out
    }

    /// Appends `items` to `out`, quoted and separated by `", "`.
    pub fn push_quoted_list(&self, out: &mut String, items: &[&str])
        ensures
            final(out)@ == old(out)@ + sep_join(
                str_views(items@).map_values(|c: Seq<char>| quoted(*self, c)),
                ", "@,
            ),
    {
        let ghost parts = str_views(items@).map_values(|c: Seq<char>| quoted(*self, c));
        let mut i: usize = 0;
        while i < items.len()
            invariant
                i <= items@.len(),
                parts == str_views(items@).map_values(|c: Seq<char>| quoted(*self, c)),
                out@ == old(out)@ + sep_join(parts.take(i as int), ", "@),
            decreases items@.len() - i,
        {
            let ghost before = out@;
            if i > 0 {
                out.append(", ");
            }
            self.push_quoted(out, items[i]);
            proof {
                lemma_sep_join_push(parts.take(i as int), ", "@, parts[i as int]);
                assert(parts.take(i as int).push(parts[i as int]) =~= parts.take(i + 1));
                assert(out@ =~= old(out)@ + sep_join(parts.take(i + 1), ", "@));
            }
            i = i + 1;
        }
        proof {
            assert(parts.take(items@.len() as int) =~= parts);
        }
    }
}

} // verus!
