//! Runtime errors, and the classification of database errors into them.
//!
//! Constraint violations, deadlocks, serialization failures and connection
//! failures are recognised from the SQLSTATE (Postgres) or extended result
//! code (SQLite) of a database error; table and column names are read from
//! the error message.
use vstd::prelude::*;

use sqlx::Error as SqlxError;

verus! {

#[verifier::external_type_specification]
#[verifier::external_body]
pub struct ExSqlxError(SqlxError);

/// Errors that can be returned by ruprizzle operations.
#[derive(Debug)]
#[non_exhaustive]
pub enum Error {
    /// A unique constraint was violated.
    UniqueViolation { table: String, columns: String, value: Option<String> },
    /// A foreign key constraint was violated.
    ForeignKeyViolation { table: String, columns: String },
    /// A NOT NULL constraint was violated.
    NotNullViolation { table: String, column: String },
    /// A check constraint was violated.
    CheckViolation { table: String, column: String },
    /// The database detected a deadlock.
    Deadlock,
    /// A serializable transaction could not be committed.
    SerializationFailure,
    /// The connection failed.
    ConnectionFailure { reason: String },
    /// Any other error from `sqlx`.
    Sqlx(SqlxError),
    /// The operation is not implemented for this backend.
    NotImplemented,
    /// A message.
    Message(String),
}

/// What an [`Error`] says, with its text as character sequences.
pub enum ErrorView {
    UniqueViolation { table: Seq<char>, columns: Seq<char>, value: Option<Seq<char>> },
    ForeignKeyViolation { table: Seq<char>, columns: Seq<char> },
    NotNullViolation { table: Seq<char>, column: Seq<char> },
    CheckViolation { table: Seq<char>, column: Seq<char> },
    Deadlock,
    SerializationFailure,
    ConnectionFailure { reason: Seq<char> },
    Sqlx,
    NotImplemented,
    Message(Seq<char>),
}

impl View for Error {
    type V = ErrorView;

    open spec fn view(&self) -> ErrorView {
        match self {
            Error::UniqueViolation { table, columns, value } => ErrorView::UniqueViolation {
                table: table@,
                columns: columns@,
                value: match value {
                    Some(v) => Some(v@),
                    None => None,
                },
            },
            Error::ForeignKeyViolation { table, columns } => ErrorView::ForeignKeyViolation {
                table: table@,
                columns: columns@,
            },
            Error::NotNullViolation { table, column } => ErrorView::NotNullViolation {
                table: table@,
                column: column@,
            },
            Error::CheckViolation { table, column } => ErrorView::CheckViolation {
                table: table@,
                column: column@,
            },
            Error::Deadlock => ErrorView::Deadlock,
            Error::SerializationFailure => ErrorView::SerializationFailure,
            Error::ConnectionFailure { reason } => ErrorView::ConnectionFailure { reason: reason@ },
            Error::Sqlx(_) => ErrorView::Sqlx,
            Error::NotImplemented => ErrorView::NotImplemented,
            Error::Message(m) => ErrorView::Message(m@),
        }
    }
}

/// The first position from `i` on at which `pat` occurs in `s`.
pub open spec fn find_from(s: Seq<char>, pat: Seq<char>, i: nat) -> Option<nat>
    decreases s.len() - i,
{
    if i + pat.len() > s.len() {
        None
    } else if s.subrange(i as int, (i + pat.len()) as int) == pat {
        Some(i)
    } else if i < s.len() {
        find_from(s, pat, i + 1)
    } else {
        None
    }
}

/// The first position at which `pat` occurs in `s`.
pub open spec fn find(s: Seq<char>, pat: Seq<char>) -> Option<nat> {
    find_from(s, pat, 0)
}

/// The last position at which `c` occurs in `s`.
pub open spec fn rfind(s: Seq<char>, c: char) -> Option<nat>
    decreases s.len(),
{
    if s.len() == 0 {
        None
    } else if s.last() == c {
        Some((s.len() - 1) as nat)
    } else {
        rfind(s.drop_last(), c)
    }
}

/// Unicode white space, as `char::is_whitespace` recognises it.
pub open spec fn is_white(c: char) -> bool {
    let u = c as u32;
    ||| 0x09 <= u <= 0x0d
    ||| u == 0x20
    ||| u == 0x85
    ||| u == 0xa0
    ||| u == 0x1680
    ||| 0x2000 <= u <= 0x200a
    ||| u == 0x2028
    ||| u == 0x2029
    ||| u == 0x202f
    ||| u == 0x205f
    ||| u == 0x3000
}

/// `s` without its leading white space.
pub open spec fn trim_start(s: Seq<char>) -> Seq<char>
    decreases s.len(),
{
    if s.len() > 0 && is_white(s[0]) {
        trim_start(s.drop_first())
    } else {
        s
    }
}

/// `s` without its trailing white space.
pub open spec fn trim_end(s: Seq<char>) -> Seq<char>
    decreases s.len(),
{
    if s.len() > 0 && is_white(s.last()) {
        trim_end(s.drop_last())
    } else {
        s
    }
}

/// `s` without leading and trailing white space.
pub open spec fn trim(s: Seq<char>) -> Seq<char> {
    trim_end(trim_start(s))
}

/// `s` split at its last `.`: the part before and the part after; with no
/// dot, an empty first part and all of `s`.
pub open spec fn split_last_dot(s: Seq<char>) -> (Seq<char>, Seq<char>) {
    match rfind(s, '.') {
        Some(d) => (s.subrange(0, d as int), s.subrange((d + 1) as int, s.len() as int)),
        None => (Seq::empty(), s),
    }
}

/// What a Postgres unique-violation message names: no table, the key
/// columns and the key value, read from `Key (columns)=(value)`.
pub open spec fn key_detail(msg: Seq<char>) -> (Seq<char>, Seq<char>, Option<Seq<char>>) {
    match find(msg, "Key ("@) {
        Some(start) => {
            let rest = msg.subrange((start + 5) as int, msg.len() as int);
            match find(rest, ")=("@) {
                Some(close) => {
                    let rest2 = rest.subrange((close + 3) as int, rest.len() as int);
                    match find(rest2, ")"@) {
                        Some(end) => (
                            Seq::empty(),
                            rest.subrange(0, close as int),
                            Some(rest2.subrange(0, end as int)),
                        ),
                        None => (Seq::empty(), Seq::empty(), None),
                    }
                },
                None => (Seq::empty(), Seq::empty(), None),
            }
        },
        None => (Seq::empty(), Seq::empty(), None),
    }
}

/// The table a Postgres message names in `table "name"`, and no column.
pub open spec fn quoted_table(msg: Seq<char>) -> (Seq<char>, Seq<char>) {
    match find(msg, "table \""@) {
        Some(start) => {
            let rest = msg.subrange((start + 7) as int, msg.len() as int);
            match find(rest, "\""@) {
                Some(end) => (rest.subrange(0, end as int), Seq::empty()),
                None => (Seq::empty(), Seq::empty()),
            }
        },
        None => (Seq::empty(), Seq::empty()),
    }
}

/// The table and column a Postgres message names in `column "t.c"` (or
/// `column "c"`, with no table).
pub open spec fn quoted_column(msg: Seq<char>) -> (Seq<char>, Seq<char>) {
    match find(msg, "column \""@) {
        Some(start) => {
            let rest = msg.subrange((start + 8) as int, msg.len() as int);
            match find(rest, "\""@) {
                Some(end) => split_last_dot(rest.subrange(0, end as int)),
                None => (Seq::empty(), Seq::empty()),
            }
        },
        None => (Seq::empty(), Seq::empty()),
    }
}

/// The table and columns a SQLite message names after `prefix`, as
/// `table.column`; nothing when the message does not start with `prefix` or
/// has no dot.
pub open spec fn sqlite_target(msg: Seq<char>, prefix: Seq<char>) -> (Seq<char>, Seq<char>) {
    if prefix.len() <= msg.len() && msg.subrange(0, prefix.len() as int) == prefix {
        let full = trim(msg.subrange(prefix.len() as int, msg.len() as int));
        match rfind(full, '.') {
            Some(d) => (full.subrange(0, d as int), full.subrange((d + 1) as int, full.len() as int)),
            None => (Seq::empty(), Seq::empty()),
        }
    } else {
        (Seq::empty(), Seq::empty())
    }
}

/// The classes of constraint that SQLite reports by extended result code.
#[derive(Debug, Clone, Copy, PartialEq, Eq)]
pub enum SqliteConstraint {
    /// `UNIQUE` (codes 2067 and 1555).
    Unique,
    /// `FOREIGN KEY` (code 787).
    ForeignKey,
    /// `NOT NULL` (code 1299).
    NotNull,
    /// `CHECK` (code 275).
    Check,
}

/// The constraint class of a SQLite extended result code.
pub open spec fn constraint_of(code: Seq<char>) -> Option<SqliteConstraint> {
    if code == "2067"@ || code == "1555"@ {
        Some(SqliteConstraint::Unique)
    } else if code == "787"@ {
        Some(SqliteConstraint::ForeignKey)
    } else if code == "1299"@ {
        Some(SqliteConstraint::NotNull)
    } else if code == "275"@ {
        Some(SqliteConstraint::Check)
    } else {
        None
    }
}

/// A SQLSTATE of class 08, connection exception.
pub open spec fn connection_code(code: Seq<char>) -> bool {
    code.len() >= 2 && code[0] == '0' && code[1] == '8'
}

/// The error a SQLite constraint failure of class `kind` with `msg` becomes.
pub open spec fn sqlite_violation(msg: Seq<char>, kind: SqliteConstraint) -> ErrorView {
    match kind {
        SqliteConstraint::Unique => {
            let t = sqlite_target(msg, "UNIQUE constraint failed: "@);
            ErrorView::UniqueViolation { table: t.0, columns: t.1, value: None }
        },
        SqliteConstraint::ForeignKey => {
            let t = sqlite_target(msg, "FOREIGN KEY constraint failed: "@);
            ErrorView::ForeignKeyViolation { table: t.0, columns: t.1 }
        },
        SqliteConstraint::NotNull => {
            let t = sqlite_target(msg, "NOT NULL constraint failed: "@);
            ErrorView::NotNullViolation { table: t.0, column: t.1 }
        },
        SqliteConstraint::Check => {
            let t = sqlite_target(msg, "CHECK constraint failed: "@);
            ErrorView::CheckViolation { table: t.0, column: t.1 }
        },
    }
}

/// The error that a database error with `code` and `msg` becomes; `None`
/// when it is none of the recognised kinds and stays a plain `sqlx` error.
pub open spec fn database_verdict(code: Option<Seq<char>>, msg: Seq<char>) -> Option<ErrorView> {
    match code {
        None => None,
        Some(c) => if connection_code(c) {
            Some(ErrorView::ConnectionFailure { reason: msg })
        } else if c == "40P01"@ {
            Some(ErrorView::Deadlock)
        } else if c == "40001"@ {
            Some(ErrorView::SerializationFailure)
        } else if c == "23505"@ {
            let d = key_detail(msg);
            Some(ErrorView::UniqueViolation { table: d.0, columns: d.1, value: d.2 })
        } else if c == "23503"@ {
            let d = quoted_table(msg);
            Some(ErrorView::ForeignKeyViolation { table: d.0, columns: d.1 })
        } else if c == "23502"@ {
            let d = quoted_column(msg);
            Some(ErrorView::NotNullViolation { table: d.0, column: d.1 })
        } else if c == "23514"@ || c == "23507"@ {
            let d = quoted_column(msg);
            Some(ErrorView::CheckViolation { table: d.0, column: d.1 })
        } else {
            match constraint_of(c) {
                Some(kind) => Some(sqlite_violation(msg, kind)),
                None => None,
            }
        },
    }
}

/// The view of an optional error.
pub open spec fn error_opt_view(r: Option<Error>) -> Option<ErrorView> {
    match r {
        Some(e) => Some(e@),
        None => None,
    }
}

proof fn lemma_find_from_bounds(s: Seq<char>, pat: Seq<char>, i: nat)
    ensures
        match find_from(s, pat, i) {
            Some(j) => i <= j && j + pat.len() <= s.len() && s.subrange(j as int, (j + pat.len()) as int)
                == pat,
            None => true,
        },
    decreases s.len() - i,
{
    if i + pat.len() <= s.len() && s.subrange(i as int, (i + pat.len()) as int) != pat && i
        < s.len() {
        lemma_find_from_bounds(s, pat, i + 1);
    }
}

proof fn lemma_rfind_bounds(s: Seq<char>, c: char)
    ensures
        match rfind(s, c) {
            Some(j) => j < s.len() && s[j as int] == c,
            None => forall|k: int| 0 <= k < s.len() ==> s[k] != c,
        },
    decreases s.len(),
{
    if s.len() > 0 && s.last() != c {
        lemma_rfind_bounds(s.drop_last(), c);
        assert forall|k: int| 0 <= k < s.len() - 1 implies s[k] == s.drop_last()[k] by {}
    }
}

pub(crate) fn string_of(s: &str) -> (r: String)
    ensures
        r@ == s@,
{
    s.to_owned()
}

/// Whether `pat` occurs in `s` at position `i`.
fn occurs_at(s: &str, i: usize, pat: &str) -> (r: bool)
    requires
        i + pat@.len() <= s@.len(),
    ensures
        r == (s@.subrange(i as int, i + pat@.len()) == pat@),
{
    let sl = s.unicode_len();
    let n = pat.unicode_len();
    let mut j: usize = 0;
    while j < n
        invariant
            n == pat@.len(),
            sl == s@.len(),
            i + n <= s@.len(),
            j <= n,
            forall|k: int| 0 <= k < j ==> s@[i + k] == pat@[k],
        decreases n - j,
    {
        if s.get_char(i + j) != pat.get_char(j) {
            proof {
                assert(s@.subrange(i as int, i + n)[j as int] != pat@[j as int]);
            }
            return false;
        }
        j = j + 1;
    }
    proof {
        assert(s@.subrange(i as int, i + n) =~= pat@);
    }
    true
}

/// The first position at which `pat` occurs in `s`.
pub fn find_str(s: &str, pat: &str) -> (r: Option<usize>)
    ensures
        match r {
            Some(i) => find(s@, pat@) == Some(i as nat) && i + pat@.len() <= s@.len(),
            None => find(s@, pat@) is None,
        },
{
    let n = s.unicode_len();
    let m = pat.unicode_len();
    let mut i: usize = 0;
    while i <= n && m <= n - i
        invariant
            n == s@.len(),
            m == pat@.len(),
            find(s@, pat@) == find_from(s@, pat@, i as nat),
        decreases n - i,
    {
        if occurs_at(s, i, pat) {
            return Some(i);
        }
        if i >= n {
            return None;
        }
        i = i + 1;
    }
    None
}

/// The last position at which `c` occurs in `s`.
pub fn rfind_char(s: &str, c: char) -> (r: Option<usize>)
    ensures
        match r {
            Some(i) => rfind(s@, c) == Some(i as nat) && i < s@.len(),
            None => rfind(s@, c) is None,
        },
{
    let mut i: usize = s.unicode_len();
    proof {
        assert(s@.subrange(0, i as int) =~= s@);
    }
    while i > 0
        invariant
            i <= s@.len(),
            rfind(s@, c) == rfind(s@.subrange(0, i as int), c),
        decreases i,
    {
        let ghost t = s@.subrange(0, i as int);
        if s.get_char(i - 1) == c {
            proof {
                assert(t.last() == s@[i - 1]);
            }
            return Some(i - 1);
        }
        proof {
            assert(t.drop_last() =~= s@.subrange(0, i - 1));
        }
        i = i - 1;
    }
    None
}

/// Whether `c` is white space, as `char::is_whitespace` decides.
pub fn is_whitespace(c: char) -> (r: bool)
    ensures
        r == is_white(c),
{
    let u = c as u32;
    (0x09 <= u && u <= 0x0d) || u == 0x20 || u == 0x85 || u == 0xa0 || u == 0x1680 || (0x2000
        <= u && u <= 0x200a) || u == 0x2028 || u == 0x2029 || u == 0x202f || u == 0x205f || u
        == 0x3000
}

proof fn lemma_trim_start_suffix(s: Seq<char>, i: int)
    requires
        0 <= i <= s.len(),
        forall|k: int| 0 <= k < i ==> is_white(#[trigger] s[k]),
    ensures
        trim_start(s) == trim_start(s.subrange(i, s.len() as int)),
    decreases i,
{
    if i > 0 {
        assert(s.drop_first() =~= s.subrange(1, s.len() as int));
        lemma_trim_start_suffix(s.drop_first(), i - 1);
        assert(s.drop_first().subrange(i - 1, s.drop_first().len() as int) =~= s.subrange(i, s.len() as int));
    } else {
        assert(s.subrange(0, s.len() as int) =~= s);
    }
}

proof fn lemma_trim_end_prefix(s: Seq<char>, j: int)
    requires
        0 <= j <= s.len(),
        forall|k: int| j <= k < s.len() ==> is_white(#[trigger] s[k]),
    ensures
        trim_end(s) == trim_end(s.subrange(0, j)),
    decreases s.len() - j,
{
    if j < s.len() {
        assert(s.drop_last() =~= s.subrange(0, s.len() - 1));
        lemma_trim_end_prefix(s.drop_last(), j);
        assert(s.drop_last().subrange(0, j) =~= s.subrange(0, j));
    } else {
        assert(s.subrange(0, j) =~= s);
    }
}

/// `s` without leading and trailing white space.
pub fn trim_str(s: &str) -> (r: &str)
    ensures
        r@ == trim(s@),
{
    let n = s.unicode_len();
    let mut lo: usize = 0;
    while lo < n && is_whitespace(s.get_char(lo))
        invariant
            n == s@.len(),
            lo <= n,
            forall|k: int| 0 <= k < lo ==> is_white(#[trigger] s@[k]),
        decreases n - lo,
    {
        lo = lo + 1;
    }
    let ghost a = s@.subrange(lo as int, n as int);
    proof {
        lemma_trim_start_suffix(s@, lo as int);
        if lo < n {
            assert(!is_white(a[0]));
        }
        assert(trim_start(a) == a);
    }
    let mut hi: usize = n;
    while hi > lo && is_whitespace(s.get_char(hi - 1))
        invariant
            n == s@.len(),
            lo <= hi <= n,
            a == s@.subrange(lo as int, n as int),
            forall|k: int| hi - lo <= k < a.len() ==> is_white(#[trigger] a[k]),
        decreases hi - lo,
    {
        proof {
            assert(a[hi - 1 - lo] == s@[hi - 1]);
        }
        hi = hi - 1;
    }
    proof {
        lemma_trim_end_prefix(a, hi - lo);
        let b = a.subrange(0, hi - lo);
        assert(b =~= s@.subrange(lo as int, hi as int));
        if hi > lo {
            assert(b.last() == s@[hi - 1]);
        }
    }
    s.substring_char(lo, hi)
}

/// What follows `prefix` in `s`, when `s` starts with it.
pub fn strip_prefix_str<'a>(s: &'a str, prefix: &str) -> (r: Option<&'a str>)
    ensures
        match r {
            Some(rest) => prefix@.len() <= s@.len() && s@.subrange(0, prefix@.len() as int)
                == prefix@ && rest@ == s@.subrange(prefix@.len() as int, s@.len() as int),
            None => !(prefix@.len() <= s@.len() && s@.subrange(0, prefix@.len() as int)
                == prefix@),
        },
{
    let n = s.unicode_len();
    let m = prefix.unicode_len();
    if m <= n && occurs_at(s, 0, prefix) {
        Some(s.substring_char(m, n))
    } else {
        None
    }
}

/// `s` split at its last dot, as two owned strings.
fn split_at_last_dot(s: &str) -> (r: (String, String))
    ensures
        r.0@ == split_last_dot(s@).0,
        r.1@ == split_last_dot(s@).1,
{
    let n = s.unicode_len();
    match rfind_char(s, '.') {
        Some(d) => (string_of(s.substring_char(0, d)), string_of(s.substring_char(d + 1, n))),
        None => (String::new(), string_of(s)),
    }
}

/// Reads the key columns and value of a Postgres unique-violation message
/// (`Key (email)=(a@b.c) already exists.`).
pub fn parse_postgres_key_detail(msg: &str) -> (r: (String, String, Option<String>))
    ensures
        r.0@ == key_detail(msg@).0,
        r.1@ == key_detail(msg@).1,
        match r.2 {
            Some(v) => key_detail(msg@).2 == Some(v@),
            None => key_detail(msg@).2 is None,
        },
{
    proof {
        reveal_strlit("Key (");
    }
    if let Some(start) = find_str(msg, "Key (") {
        let n = msg.unicode_len();
        let rest = msg.substring_char(start + 5, n);
        proof {
            reveal_strlit(")=(");
        }
        if let Some(close) = find_str(rest, ")=(") {
            let columns = rest.substring_char(0, close);
            let rest2 = rest.substring_char(close + 3, rest.unicode_len());
            if let Some(end) = find_str(rest2, ")") {
                let value = rest2.substring_char(0, end);
                return (String::new(), string_of(columns), Some(string_of(value)));
            }
        }
    }
    (String::new(), String::new(), None)
}

/// Reads the table of a Postgres foreign-key message (`table "posts"`).
pub fn parse_postgres_table_column(msg: &str) -> (r: (String, String))
    ensures
        r.0@ == quoted_table(msg@).0,
        r.1@ == quoted_table(msg@).1,
{
    proof {
        reveal_strlit("table \"");
    }
    if let Some(start) = find_str(msg, "table \"") {
        let n = msg.unicode_len();
        let rest = msg.substring_char(start + 7, n);
        if let Some(end) = find_str(rest, "\"") {
            return (string_of(rest.substring_char(0, end)), String::new());
        }
    }
    (String::new(), String::new())
}

/// Reads the table and column of a Postgres NOT NULL or check message
/// (`column "users.email"`).
pub fn parse_postgres_table_column_single(msg: &str) -> (r: (String, String))
    ensures
        r.0@ == quoted_column(msg@).0,
        r.1@ == quoted_column(msg@).1,
{
    proof {
        reveal_strlit("column \"");
    }
    if let Some(start) = find_str(msg, "column \"") {
        let n = msg.unicode_len();
        let rest = msg.substring_char(start + 8, n);
        if let Some(end) = find_str(rest, "\"") {
            return split_at_last_dot(rest.substring_char(0, end));
        }
    }
    (String::new(), String::new())
}

/// Reads `table.column` after `prefix` in a SQLite constraint message.
pub fn parse_sqlite_constraint_columns(msg: &str, prefix: &str) -> (r: (String, String))
    ensures
        r.0@ == sqlite_target(msg@, prefix@).0,
        r.1@ == sqlite_target(msg@, prefix@).1,
{
    if let Some(rest) = strip_prefix_str(msg, prefix) {
        let full = trim_str(rest);
        let n = full.unicode_len();
        if let Some(dot) = rfind_char(full, '.') {
            return (string_of(full.substring_char(0, dot)), string_of(full.substring_char(dot + 1, n)));
        }
    }
    (String::new(), String::new())
}

/// Reads `table.column` after `prefix` in a SQLite constraint message.
pub fn parse_sqlite_table_column(msg: &str, prefix: &str) -> (r: (String, String))
    ensures
        r.0@ == sqlite_target(msg@, prefix@).0,
        r.1@ == sqlite_target(msg@, prefix@).1,
{
    parse_sqlite_constraint_columns(msg, prefix)
}

/// Whether a SQLSTATE is of class 08, connection exception.
pub fn is_connection_code(code: &str) -> (r: bool)
    ensures
        r == connection_code(code@),
{
    code.unicode_len() >= 2 && code.get_char(0) == '0' && code.get_char(1) == '8'
}

pub(crate) fn same_text(a: &str, b: &str) -> (r: bool)
    ensures
        r == (a@ == b@),
{
    let n = a.unicode_len();
    if n != b.unicode_len() {
        return false;
    }
    let r = occurs_at(a, 0, b);
    proof {
        assert(a@.subrange(0, n as int) =~= a@);
    }
    r
}

/// The constraint class of a SQLite extended result code.
pub fn sqlite_constraint_kind(code: &str) -> (r: Option<SqliteConstraint>)
    ensures
        r == constraint_of(code@),
{
    if same_text(code, "2067") || same_text(code, "1555") {
        Some(SqliteConstraint::Unique)
    } else if same_text(code, "787") {
        Some(SqliteConstraint::ForeignKey)
    } else if same_text(code, "1299") {
        Some(SqliteConstraint::NotNull)
    } else if same_text(code, "275") {
        Some(SqliteConstraint::Check)
    } else {
        None
    }
}

/// The error a SQLite constraint failure of class `kind` becomes.
pub fn parse_sqlite_constraint(msg: &str, kind: SqliteConstraint) -> (r: Error)
    ensures
        r@ == sqlite_violation(msg@, kind),
{
    match kind {
        SqliteConstraint::Unique => {
            let (table, columns) = parse_sqlite_constraint_columns(msg, "UNIQUE constraint failed: ");
            Error::UniqueViolation { table, columns, value: None }
        },
        SqliteConstraint::ForeignKey => {
            let (table, columns) = parse_sqlite_constraint_columns(
                msg,
                "FOREIGN KEY constraint failed: ",
            );
            Error::ForeignKeyViolation { table, columns }
        },
        SqliteConstraint::NotNull => {
            let (table, column) = parse_sqlite_table_column(msg, "NOT NULL constraint failed: ");
            Error::NotNullViolation { table, column }
        },
        SqliteConstraint::Check => {
            let (table, column) = parse_sqlite_table_column(msg, "CHECK constraint failed: ");
            Error::CheckViolation { table, column }
        },
    }
}

/// The Postgres unique-violation error for `msg`.
pub fn parse_unique_violation(msg: &str) -> (r: Error)
    ensures
        r@ == (ErrorView::UniqueViolation {
            table: key_detail(msg@).0,
            columns: key_detail(msg@).1,
            value: key_detail(msg@).2,
        }),
{
    let (table, columns, value) = parse_postgres_key_detail(msg);
    Error::UniqueViolation { table, columns, value }
}

/// The Postgres foreign-key error for `msg`.
pub fn parse_foreign_key_violation(msg: &str) -> (r: Error)
    ensures
        r@ == (ErrorView::ForeignKeyViolation {
            table: quoted_table(msg@).0,
            columns: quoted_table(msg@).1,
        }),
{
    let (table, columns) = parse_postgres_table_column(msg);
    Error::ForeignKeyViolation { table, columns }
}

/// The Postgres NOT NULL error for `msg`.
pub fn parse_not_null_violation(msg: &str) -> (r: Error)
    ensures
        r@ == (ErrorView::NotNullViolation {
            table: quoted_column(msg@).0,
            column: quoted_column(msg@).1,
        }),
{
    let (table, column) = parse_postgres_table_column_single(msg);
    Error::NotNullViolation { table, column }
}

/// The Postgres check-constraint error for `msg`.
pub fn parse_check_violation(msg: &str) -> (r: Error)
    ensures
        r@ == (ErrorView::CheckViolation {
            table: quoted_column(msg@).0,
            column: quoted_column(msg@).1,
        }),
{
    let (table, column) = parse_postgres_table_column_single(msg);
    Error::CheckViolation { table, column }
}

/// The text of an optional code.
pub open spec fn code_view(code: Option<&str>) -> Option<Seq<char>> {
    match code {
        Some(c) => Some(c@),
        None => None,
    }
}

/// Classifies a database error by its `code` and `msg`; `None` when it is
/// none of the recognised kinds.
pub fn classify_database(code: Option<&str>, msg: &str) -> (r: Option<Error>)
    ensures
        error_opt_view(r) == database_verdict(code_view(code), msg@),
{
    let c = match code {
        None => {
            return None;
        },
        Some(c) => c,
    };
    proof {
        reveal_strlit("40P01");
        reveal_strlit("40001");
        reveal_strlit("23505");
        reveal_strlit("23503");
        reveal_strlit("23502");
        reveal_strlit("23514");
        reveal_strlit("23507");
    }
    if is_connection_code(c) {
        return Some(Error::ConnectionFailure { reason: string_of(msg) });
    }
    if same_text(c, "40P01") {
        return Some(Error::Deadlock);
    }
    if same_text(c, "40001") {
        return Some(Error::SerializationFailure);
    }
    if same_text(c, "23505") {
        return Some(parse_unique_violation(msg));
    }
    if same_text(c, "23503") {
        return Some(parse_foreign_key_violation(msg));
    }
    if same_text(c, "23502") {
        return Some(parse_not_null_violation(msg));
    }
    if same_text(c, "23514") || same_text(c, "23507") {
        return Some(parse_check_violation(msg));
    }
    match sqlite_constraint_kind(c) {
        Some(kind) => Some(parse_sqlite_constraint(msg, kind)),
        None => None,
    }
}

/// The kinds of `sqlx` error that classification tells apart.
#[derive(Debug, Clone, Copy, PartialEq, Eq)]
pub enum SqlxKind {
    /// An error the database returned.
    Database,
    /// An I/O error on the connection.
    Io,
    /// No connection became free in time.
    PoolTimedOut,
    /// The pool was closed.
    PoolClosed,
    /// Any other error.
    Other,
}

/// The kind of `e`, as the variant of `sqlx::Error` it is.
pub uninterp spec fn sqlx_kind_of(e: SqlxError) -> SqlxKind;

/// The message a database error carries (`DatabaseError::message`); none
/// for other errors.
pub uninterp spec fn sqlx_message(e: SqlxError) -> Option<Seq<char>>;

/// The code a database error carries (`DatabaseError::code`); none for
/// other errors or when the database gave none.
pub uninterp spec fn sqlx_code(e: SqlxError) -> Option<Seq<char>>;

/// The text of an optional string.
pub open spec fn opt_text(s: Option<String>) -> Option<Seq<char>> {
    match s {
        Some(t) => Some(t@),
        None => None,
    }
}

/// The message of a database error, through `DatabaseError::message`:
/// present exactly for the `Database` variant.
#[verifier::external_body]
pub(crate) fn database_message(err: &SqlxError) -> (r: Option<String>)
    ensures
        opt_text(r) == sqlx_message(*err),
        r is Some <==> sqlx_kind_of(*err) is Database,
{
    match err {
        SqlxError::Database(db) => Some(db.message().to_owned()),
        _ => None,
    }
}

/// The SQLSTATE or result code of a database error, through
/// `DatabaseError::code`.
#[verifier::external_body]
pub(crate) fn database_code(err: &SqlxError) -> (r: Option<String>)
    ensures
        opt_text(r) == sqlx_code(*err),
{
    match err {
        SqlxError::Database(db) => db.code().map(|c| c.into_owned()),
        _ => None,
    }
}

/// The variant of a `sqlx` error, one arm a variant.
#[verifier::external_body]
fn sqlx_kind(err: &SqlxError) -> (r: SqlxKind)
    ensures
        r == sqlx_kind_of(*err),
{
    match err {
        SqlxError::Database(_) => SqlxKind::Database,
        SqlxError::Io(_) => SqlxKind::Io,
        SqlxError::PoolTimedOut => SqlxKind::PoolTimedOut,
        SqlxError::PoolClosed => SqlxKind::PoolClosed,
        _ => SqlxKind::Other,
    }
}

/// The text `sqlx::Error` displays, through `ToString`. Its wording is fixed
/// for a pool that timed out or was closed; for other errors it comes from
/// the wrapped error (for I/O errors, from the platform and its locale), and
/// nothing is stated of it.
#[verifier::external_body]
fn sqlx_error_text(err: &SqlxError) -> (r: String)
    ensures
        sqlx_kind_of(*err) is PoolTimedOut ==> r@ == pool_timed_out_text(),
        sqlx_kind_of(*err) is PoolClosed ==> r@ == pool_closed_text(),
{
    err.to_string()
}

/// The text `sqlx` displays for a pool that timed out.
pub open spec fn pool_timed_out_text() -> Seq<char> {
    "pool timed out while waiting for an open connection"@
}

/// The text `sqlx` displays for a closed pool.
pub open spec fn pool_closed_text() -> Seq<char> {
    "attempted to acquire a connection on a closed pool"@
}

/// The kinds of `sqlx` error that report a lost or unavailable connection.
pub open spec fn connection_kind(k: SqlxKind) -> bool {
    k is Io || k is PoolTimedOut || k is PoolClosed
}

/// Whether `k` reports a lost or unavailable connection.
pub fn is_connection_kind(k: SqlxKind) -> (r: bool)
    ensures
        r == connection_kind(k),
{
    match k {
        SqlxKind::Io | SqlxKind::PoolTimedOut | SqlxKind::PoolClosed => true,
        _ => false,
    }
}

/// What [`classify`] makes of `err`: a database error by its code and
/// message (see [`database_verdict`]), else a connection failure for the
/// connection kinds, with the error's displayed text as the reason (fixed
/// wording for a pool that timed out or was closed), else the error itself.
pub open spec fn classified(err: SqlxError, r: Error) -> bool {
    match sqlx_message(err) {
        Some(m) => match database_verdict(sqlx_code(err), m) {
            Some(v) => r@ == v,
            None => r == Error::Sqlx(err),
        },
        None => if connection_kind(sqlx_kind_of(err)) {
            &&& r is ConnectionFailure
            &&& sqlx_kind_of(err) is PoolTimedOut ==> r@ == (ErrorView::ConnectionFailure { reason: pool_timed_out_text() })
            &&& sqlx_kind_of(err) is PoolClosed ==> r@ == (ErrorView::ConnectionFailure { reason: pool_closed_text() })
        } else {
            r == Error::Sqlx(err)
        },
    }
}

/// Maps a `sqlx` error to a runtime error: constraint violations,
/// deadlocks, serialization failures and connection failures get their own
/// variants; anything else stays a `sqlx` error.
pub fn classify(err: SqlxError) -> (r: Error)
    ensures
        classified(err, r),
{
    match database_message(&err) {
        Some(msg) => {
            let code = database_code(&err);
            let verdict = match &code {
                Some(c) => classify_database(Some(c.as_str()), msg.as_str()),
                None => classify_database(None, msg.as_str()),
            };
            match verdict {
                Some(e) => e,
                None => Error::Sqlx(err),
            }
        },
        None => {
            if is_connection_kind(sqlx_kind(&err)) {
                Error::ConnectionFailure { reason: sqlx_error_text(&err) }
            } else {
                Error::Sqlx(err)
            }
        },
    }
}

} // verus!
