//! Transaction settings.
use vstd::prelude::*;

use crate::dialect::Dialect;
use crate::error::{
    code_view, database_code, database_message, find, find_from, find_str, same_text, sqlx_code, sqlx_message, Error,
};
use sqlx::Error as SqlxError;
use crate::text::push_char;

verus! {

/// The isolation level for a transaction.
///
/// Postgres honours them all. SQLite has a single writer and is effectively
/// serializable already, so the level is accepted and ignored there.
#[derive(Debug, Clone, Copy, PartialEq, Eq)]
pub enum IsolationLevel {
    /// Statements may see rows not yet committed.
    ReadUncommitted,
    /// Each statement sees rows committed before it began.
    ReadCommitted,
    /// All statements see the snapshot taken at the first read.
    RepeatableRead,
    /// Full serializability; may abort with a serialization failure.
    Serializable,
}

/// The SQL fragment of an isolation level.
pub open spec fn isolation_text(l: IsolationLevel) -> Seq<char> {
    match l {
        IsolationLevel::ReadUncommitted => "READ UNCOMMITTED"@,
        IsolationLevel::ReadCommitted => "READ COMMITTED"@,
        IsolationLevel::RepeatableRead => "REPEATABLE READ"@,
        IsolationLevel::Serializable => "SERIALIZABLE"@,
    }
}

impl IsolationLevel {
    /// The SQL fragment used in `SET TRANSACTION ISOLATION LEVEL ...`.
    pub fn as_sql(self) -> (r: &'static str)
        ensures
            r@ == isolation_text(self),
    {
        match self {
            IsolationLevel::ReadUncommitted => "READ UNCOMMITTED",
            IsolationLevel::ReadCommitted => "READ COMMITTED",
            IsolationLevel::RepeatableRead => "REPEATABLE READ",
            IsolationLevel::Serializable => "SERIALIZABLE",
        }
    }
}

/// The statement that sets the isolation level of a transaction just begun
/// on `dialect`: only Postgres gets one.
pub fn isolation_statement(dialect: Dialect, level: IsolationLevel) -> (r: Option<String>)
    ensures
        match r {
            Some(s) => dialect is Postgres && s@ == "SET TRANSACTION ISOLATION LEVEL "@
                + isolation_text(level),
            None => !(dialect is Postgres),
        },
{
    match dialect {
        Dialect::Postgres => {
            let mut s = String::from_str("SET TRANSACTION ISOLATION LEVEL ");
            s.append(level.as_sql());
            Some(s)
        },
        _ => None,
    }
}

/// `c` in lower case when it is an ASCII capital letter.
pub open spec fn ascii_lower_char(c: char) -> char {
    if 'A' <= c && c <= 'Z' {
        ((c as u8) + 32) as char
    } else {
        c
    }
}

/// `s` with its ASCII capital letters in lower case.
pub open spec fn ascii_lower(s: Seq<char>) -> Seq<char> {
    s.map_values(|c: char| ascii_lower_char(c))
}

/// A database error with `code` and `message` is a transient failure worth
/// retrying: a serialization failure or deadlock by SQLSTATE, or a SQLite
/// lock by message.
pub open spec fn retryable(code: Option<Seq<char>>, message: Seq<char>) -> bool {
    match code {
        Some(c) if c == "40001"@ || c == "40P01"@ => true,
        _ => {
            let m = ascii_lower(message);
            find(m, "database is locked"@) is Some || find(m, "database table is locked"@) is Some
        },
    }
}

/// `s` with its ASCII capital letters in lower case.
pub fn to_ascii_lowercase(s: &str) -> (r: String)
    ensures
        r@ == ascii_lower(s@),
{
    let n = s.unicode_len();
    let mut out = String::new();
    let mut i: usize = 0;
    while i < n
        invariant
            n == s@.len(),
            i <= n,
            out@ == ascii_lower(s@.subrange(0, i as int)),
        decreases n - i,
    {
        let c = s.get_char(i);
        let l = if 'A' <= c && c <= 'Z' {
            ((c as u8) + 32) as char
        } else {
            c
        };
        push_char(&mut out, l);
        proof {
            assert(ascii_lower(s@.subrange(0, i + 1)) =~= ascii_lower(s@.subrange(0, i as int)).push(
                ascii_lower_char(c),
            ));
        }
        i = i + 1;
    }
    proof {
        assert(s@.subrange(0, n as int) =~= s@);
    }
    out
}

/// Decides from a database error's `code` and `message` whether it is worth
/// retrying.
pub fn retryable_code_or_message(code: Option<&str>, message: &str) -> (r: bool)
    ensures
        r == retryable(code_view(code), message@),
{
    proof {
        reveal_strlit("40001");
        reveal_strlit("40P01");
    }
    match code {
        Some(c) => {
            if same_text(c, "40001") || same_text(c, "40P01") {
                return true;
            }
        },
        None => {},
    }
    let m = to_ascii_lowercase(message);
    find_str(m.as_str(), "database is locked").is_some() || find_str(
        m.as_str(),
        "database table is locked",
    ).is_some()
}

/// Whether an error is a transient serialization or lock failure worth
/// retrying: a deadlock or serialization failure, or a database error whose
/// code or message says so (see [`retryable`]).
pub open spec fn retryable_error(err: Error) -> bool {
    match err {
        Error::Deadlock => true,
        Error::SerializationFailure => true,
        Error::Sqlx(e) => match sqlx_message(e) {
            Some(m) => retryable(sqlx_code(e), m),
            None => false,
        },
        _ => false,
    }
}

/// Whether an error is a transient serialization or lock failure worth
/// retrying.
pub fn is_retryable(err: &Error) -> (r: bool)
    ensures
        r == retryable_error(*err),
{
    match err {
        Error::Deadlock => true,
        Error::SerializationFailure => true,
        Error::Sqlx(e) => {
            match database_message(e) {
                None => false,
                Some(message) => {
                    let code = database_code(e);
                    match &code {
                        Some(c) => retryable_code_or_message(Some(c.as_str()), message.as_str()),
                        None => retryable_code_or_message(None, message.as_str()),
                    }
                },
            }
        },
        _ => false,
    }
}


/// An occurrence of `pat` at or after `i` is found from `i`.
proof fn lemma_find_from_occurrence(s: Seq<char>, pat: Seq<char>, i: nat, j: int)
    requires
        i <= j,
        j + pat.len() <= s.len(),
        s.subrange(j, j + pat.len()) == pat,
    ensures
        find_from(s, pat, i) is Some,
    decreases j - i,
{
    if i < j && s.subrange(i as int, (i + pat.len()) as int) != pat {
        lemma_find_from_occurrence(s, pat, i + 1, j);
    }
}

/// `pat` occurs in `s`.
pub open spec fn occurs(s: Seq<char>, pat: Seq<char>) -> bool {
    exists|j: int| 0 <= j && j + pat.len() <= s.len() && #[trigger] s.subrange(j, j + pat.len()) == pat
}

/// A database error reported as a serialization failure (SQLSTATE `40001`)
/// or a deadlock (`40P01`), or whose message, in lower case, says
/// `database is locked` or `database table is locked` (SQLite contention),
/// is worth retrying, and so are the deadlock and serialization-failure
/// errors themselves; a constraint violation is not.
pub proof fn law_lock_failures_are_retryable(e: SqlxError, m: Seq<char>)
    requires
        sqlx_message(e) == Some(m),
    ensures
        (sqlx_code(e) == Some("40001"@) || sqlx_code(e) == Some("40P01"@) || occurs(ascii_lower(m), "database is locked"@)
            || occurs(ascii_lower(m), "database table is locked"@)) ==> retryable_error(Error::Sqlx(e)),
        retryable_error(Error::Deadlock),
        retryable_error(Error::SerializationFailure),
        forall|err: Error|
            (err is UniqueViolation || err is ForeignKeyViolation || err is NotNullViolation || err is CheckViolation)
                ==> !#[trigger] retryable_error(err),
{
    let lm = ascii_lower(m);
    let p1 = "database is locked"@;
    let p2 = "database table is locked"@;
    if occurs(lm, p1) {
        let j = choose|j: int| 0 <= j && j + p1.len() <= lm.len() && #[trigger] lm.subrange(j, j + p1.len()) == p1;
        lemma_find_from_occurrence(lm, p1, 0, j);
    }
    if occurs(lm, p2) {
        let j = choose|j: int| 0 <= j && j + p2.len() <= lm.len() && #[trigger] lm.subrange(j, j + p2.len()) == p2;
        lemma_find_from_occurrence(lm, p2, 0, j);
    }
}

} // verus!
