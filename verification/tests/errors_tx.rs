use ruprizzle::dialect::Dialect;
use ruprizzle::error::{
    classify_database, find_str, parse_postgres_key_detail, parse_postgres_table_column,
    parse_postgres_table_column_single, parse_sqlite_constraint_columns, rfind_char, sqlite_constraint_kind,
    strip_prefix_str, trim_str, Error, SqliteConstraint,
};
use ruprizzle::tx::{is_retryable, isolation_statement, retryable_code_or_message, to_ascii_lowercase, IsolationLevel};

#[test]
fn text_helpers() {
    assert_eq!(find_str("abcabc", "ca"), Some(2));
    assert_eq!(find_str("abc", "x"), None);
    assert_eq!(rfind_char("a.b.c", '.'), Some(3));
    assert_eq!(rfind_char("abc", '.'), None);
    assert_eq!(trim_str("  x y \n"), "x y");
    assert_eq!(strip_prefix_str("key: v", "key: "), Some("v"));
    assert_eq!(strip_prefix_str("key", "key: "), None);
}

#[test]
fn postgres_detail_parsers() {
    let (t, c, v) = parse_postgres_key_detail("duplicate key\nDETAIL: Key (email)=(a@b.c) already exists.");
    assert_eq!((t.as_str(), c.as_str(), v.as_deref()), ("", "email", Some("a@b.c")));
    let (t, c, v) = parse_postgres_key_detail("no detail here");
    assert_eq!((t.as_str(), c.as_str(), v), ("", "", None));
    let (t, c) = parse_postgres_table_column(r#"insert on table "posts" violates foreign key"#);
    assert_eq!((t.as_str(), c.as_str()), ("posts", ""));
    let (t, c) = parse_postgres_table_column_single(r#"null value in column "users.email" violates"#);
    assert_eq!((t.as_str(), c.as_str()), ("users", "email"));
    let (t, c) = parse_postgres_table_column_single(r#"null value in column "email" violates"#);
    assert_eq!((t.as_str(), c.as_str()), ("", "email"));
    let (t, c) = parse_sqlite_constraint_columns("UNIQUE constraint failed: a.b.c ", "UNIQUE constraint failed: ");
    assert_eq!((t.as_str(), c.as_str()), ("a.b", "c"));
}

#[test]
fn sqlite_codes() {
    assert_eq!(sqlite_constraint_kind("2067"), Some(SqliteConstraint::Unique));
    assert_eq!(sqlite_constraint_kind("1555"), Some(SqliteConstraint::Unique));
    assert_eq!(sqlite_constraint_kind("787"), Some(SqliteConstraint::ForeignKey));
    assert_eq!(sqlite_constraint_kind("1299"), Some(SqliteConstraint::NotNull));
    assert_eq!(sqlite_constraint_kind("275"), Some(SqliteConstraint::Check));
    assert_eq!(sqlite_constraint_kind("19"), None);
}

#[test]
fn classify_postgres_errors() {
    assert!(matches!(
        classify_database(Some("08006"), "connection reset"),
        Some(Error::ConnectionFailure { reason }) if reason == "connection reset"
    ));
    assert!(matches!(classify_database(Some("40P01"), "x"), Some(Error::Deadlock)));
    assert!(matches!(classify_database(Some("40001"), "x"), Some(Error::SerializationFailure)));
    match classify_database(Some("23505"), "dup\nDETAIL: Key (email)=(a@b.c) already exists.") {
        Some(Error::UniqueViolation { table, columns, value }) => {
            assert_eq!(table, "");
            assert_eq!(columns, "email");
            assert_eq!(value.as_deref(), Some("a@b.c"));
        }
        _ => panic!("expected a unique violation"),
    }
    match classify_database(Some("23503"), r#"update on table "posts" violates foreign key"#) {
        Some(Error::ForeignKeyViolation { table, columns }) => {
            assert_eq!(table, "posts");
            assert_eq!(columns, "");
        }
        _ => panic!("expected a foreign-key violation"),
    }
    match classify_database(Some("23502"), r#"null value in column "users.email""#) {
        Some(Error::NotNullViolation { table, column }) => {
            assert_eq!(table, "users");
            assert_eq!(column, "email");
        }
        _ => panic!("expected a not-null violation"),
    }
    assert!(matches!(
        classify_database(Some("23514"), r#"check on column "users.age""#),
        Some(Error::CheckViolation { ref table, ref column }) if table == "users" && column == "age"
    ));
    assert!(matches!(
        classify_database(Some("23507"), "x"),
        Some(Error::CheckViolation { .. })
    ));
}

#[test]
fn classify_sqlite_errors() {
    match classify_database(Some("2067"), "UNIQUE constraint failed: users.email") {
        Some(Error::UniqueViolation { table, columns, value }) => {
            assert_eq!(table, "users");
            assert_eq!(columns, "email");
            assert!(value.is_none());
        }
        _ => panic!("expected a unique violation"),
    }
    assert!(matches!(
        classify_database(Some("787"), "FOREIGN KEY constraint failed"),
        Some(Error::ForeignKeyViolation { ref table, ref columns }) if table.is_empty() && columns.is_empty()
    ));
    assert!(matches!(
        classify_database(Some("1299"), "NOT NULL constraint failed: users.name"),
        Some(Error::NotNullViolation { ref table, ref column }) if table == "users" && column == "name"
    ));
    assert!(matches!(
        classify_database(Some("275"), "CHECK constraint failed: users.age"),
        Some(Error::CheckViolation { ref table, ref column }) if table == "users" && column == "age"
    ));
}

#[test]
fn classify_unknown_is_none() {
    assert!(classify_database(None, "anything").is_none());
    assert!(classify_database(Some("99999"), "anything").is_none());
}

#[test]
fn isolation_statements() {
    assert_eq!(IsolationLevel::RepeatableRead.as_sql(), "REPEATABLE READ");
    assert_eq!(IsolationLevel::ReadUncommitted.as_sql(), "READ UNCOMMITTED");
    assert_eq!(IsolationLevel::ReadCommitted.as_sql(), "READ COMMITTED");
    assert_eq!(IsolationLevel::Serializable.as_sql(), "SERIALIZABLE");
    assert_eq!(
        isolation_statement(Dialect::Postgres, IsolationLevel::Serializable).as_deref(),
        Some("SET TRANSACTION ISOLATION LEVEL SERIALIZABLE")
    );
    assert!(isolation_statement(Dialect::Sqlite, IsolationLevel::ReadCommitted).is_none());
    assert!(isolation_statement(Dialect::MySql, IsolationLevel::ReadCommitted).is_none());
}

#[test]
fn retry_decisions() {
    assert_eq!(to_ascii_lowercase("AbC-Ü"), "abc-Ü");
    assert!(retryable_code_or_message(Some("40001"), ""));
    assert!(retryable_code_or_message(Some("40P01"), ""));
    assert!(retryable_code_or_message(None, "Database Is Locked"));
    assert!(retryable_code_or_message(Some("5"), "database table is locked: users"));
    assert!(!retryable_code_or_message(Some("23505"), "duplicate"));
    assert!(is_retryable(&Error::Deadlock));
    assert!(is_retryable(&Error::SerializationFailure));
    assert!(!is_retryable(&Error::NotNullViolation { table: "users".into(), column: "email".into() }));
    assert!(!is_retryable(&Error::Message("database is locked".into())));
}

#[test]
fn pool_failures_become_connection_failures() {
    let e = ruprizzle::error::classify(sqlx::Error::PoolTimedOut);
    assert!(matches!(
        e,
        Error::ConnectionFailure { ref reason } if reason == "pool timed out while waiting for an open connection"
    ));
    let e = ruprizzle::error::classify(sqlx::Error::PoolClosed);
    assert!(matches!(
        e,
        Error::ConnectionFailure { ref reason } if reason == "attempted to acquire a connection on a closed pool"
    ));
    let io = std::io::Error::new(std::io::ErrorKind::ConnectionReset, "reset");
    assert!(matches!(ruprizzle::error::classify(sqlx::Error::Io(io)), Error::ConnectionFailure { .. }));
    assert!(matches!(ruprizzle::error::classify(sqlx::Error::RowNotFound), Error::Sqlx(_)));
}
