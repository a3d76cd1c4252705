use ruprizzle::aggregate::AggregateKind;
use ruprizzle::col::Column;
use ruprizzle::dialect::Dialect;
use ruprizzle::error::Error;
use ruprizzle::filter::{ExistsSubquery, Filter};
use ruprizzle::join::{JoinOn, LeftJoin2};
use ruprizzle::model::Model;
use ruprizzle::page::Page;
use ruprizzle::query::{count_from_rows, SelectQuery, SetOp, SetOpQuery};
use ruprizzle::value::Value;

struct User;
impl Model for User {
    const TABLE: &'static str = "users";
    const PRIMARY_KEY: &'static str = "id";
    const COLUMNS: &'static [&'static str] = &[];
    const DELETED_AT_COLUMN: Option<&'static str> = None;
}

struct JoinUser;
impl Model for JoinUser {
    const TABLE: &'static str = "users";
    const PRIMARY_KEY: &'static str = "id";
    const COLUMNS: &'static [&'static str] = &["id", "name"];
    const DELETED_AT_COLUMN: Option<&'static str> = None;
}

struct JoinPost;
impl Model for JoinPost {
    const TABLE: &'static str = "posts";
    const PRIMARY_KEY: &'static str = "id";
    const COLUMNS: &'static [&'static str] = &["id", "title", "user_id"];
    const DELETED_AT_COLUMN: Option<&'static str> = None;
}

struct SelfJoinUser;
impl Model for SelfJoinUser {
    const TABLE: &'static str = "employees";
    const PRIMARY_KEY: &'static str = "id";
    const COLUMNS: &'static [&'static str] = &["id", "name", "manager_id"];
    const DELETED_AT_COLUMN: Option<&'static str> = None;
}

struct Reports;
impl Model for Reports {
    const TABLE: &'static str = "reports";
    const PRIMARY_KEY: &'static str = "id";
    const COLUMNS: &'static [&'static str] = &["id", "name", "manager_id"];
    const DELETED_AT_COLUMN: Option<&'static str> = None;
}

struct Doc;
impl Model for Doc {
    const TABLE: &'static str = "docs";
    const PRIMARY_KEY: &'static str = "id";
    const COLUMNS: &'static [&'static str] = &["id", "title", "deleted_at"];
    const DELETED_AT_COLUMN: Option<&'static str> = Some("deleted_at");
}

fn id() -> Column<User, i64> {
    Column::new("users", "id")
}
fn name() -> Column<User, String> {
    Column::new("users", "name")
}
fn role() -> Column<User, String> {
    Column::new("users", "role")
}
fn user_id() -> Column<JoinUser, i64> {
    Column::new("users", "id")
}
fn post_user_id() -> Column<JoinPost, i64> {
    Column::new("posts", "user_id")
}
fn employee_id() -> Column<SelfJoinUser, i64> {
    Column::new("employees", "id")
}
fn employee_name() -> Column<SelfJoinUser, String> {
    Column::new("employees", "name")
}
fn manager_id() -> Column<SelfJoinUser, i64> {
    Column::new("employees", "manager_id")
}
fn reports_manager_id() -> Column<Reports, i64> {
    Column::new("reports", "manager_id")
}
fn doc_title() -> Column<Doc, String> {
    Column::new("docs", "title")
}

fn pg() -> Dialect {
    Dialect::Postgres
}
fn sqlite() -> Dialect {
    Dialect::Sqlite
}

#[test]
fn cte_postgres() {
    let body = SelectQuery::<User, User>::new(pg()).filter(role().eq("manager")).columns(id());
    let q = SelectQuery::<User, User>::new(pg())
        .with("managers", body.into_cte())
        .columns((id(), name()));
    let c = q.to_sql().unwrap();
    assert_eq!(
        c.sql,
        r#"WITH "managers" AS (SELECT "users"."id" FROM "users" WHERE "users"."role" = $1) SELECT "users"."id", "users"."name" FROM "users""#
    );
    assert_eq!(c.binds, vec![Value::Str("manager".into())]);
}

#[test]
fn cte_sqlite() {
    let body = SelectQuery::<User, User>::new(sqlite()).filter(role().eq("manager")).columns(id());
    let q = SelectQuery::<User, User>::new(sqlite())
        .with("managers", body.into_cte())
        .columns((id(), name()));
    let c = q.to_sql().unwrap();
    assert_eq!(
        c.sql,
        r#"WITH `managers` AS (SELECT `users`.`id` FROM `users` WHERE `users`.`role` = ?) SELECT `users`.`id`, `users`.`name` FROM `users`"#
    );
    assert_eq!(c.binds, vec![Value::Str("manager".into())]);
}

#[test]
fn recursive_cte_postgres() {
    let anchor = SelectQuery::<SelfJoinUser, SelfJoinUser>::new(pg()).filter(manager_id().eq(1));
    let exists = SelectQuery::<Reports, Reports>::new(pg())
        .filter(reports_manager_id().correlated_to(employee_id()))
        .into_exists();
    let recursive = SelectQuery::<SelfJoinUser, SelfJoinUser>::new(pg())
        .filter(Filter::<SelfJoinUser>::exists_query(exists).and(employee_name().eq("x")));
    let q = SelectQuery::<Reports, Reports>::new(pg()).with_recursive(
        "reports",
        anchor.into_cte(),
        recursive.into_cte(),
    );
    let c = q.to_sql().unwrap();
    assert!(c.sql.starts_with(r#"WITH RECURSIVE "reports" AS ("#));
    assert!(c.sql.contains("UNION ALL"));
    assert!(c
        .sql
        .ends_with(r#"SELECT "reports"."id", "reports"."name", "reports"."manager_id" FROM "reports""#));
    assert_eq!(c.binds, vec![Value::I64(1), Value::Str("x".into())]);
}

#[test]
fn recursive_cte_renumbers_second_branch() {
    let anchor = SelectQuery::<SelfJoinUser, SelfJoinUser>::new(pg()).filter(manager_id().eq(1));
    let recursive = SelectQuery::<SelfJoinUser, SelfJoinUser>::new(pg()).filter(employee_name().eq("x"));
    let q = SelectQuery::<Reports, Reports>::new(pg()).with_recursive(
        "reports",
        anchor.into_cte(),
        recursive.into_cte(),
    );
    let c = q.to_sql().unwrap();
    assert_eq!(
        c.sql,
        r#"WITH RECURSIVE "reports" AS ((SELECT "employees"."id", "employees"."name", "employees"."manager_id" FROM "employees" WHERE "employees"."manager_id" = $1) UNION ALL (SELECT "employees"."id", "employees"."name", "employees"."manager_id" FROM "employees" WHERE "employees"."name" = $2)) SELECT "reports"."id", "reports"."name", "reports"."manager_id" FROM "reports""#
    );
}

#[test]
fn union_sql_postgres() {
    let left = SelectQuery::<JoinUser, JoinUser>::new(pg()).columns(user_id());
    let right = SelectQuery::<JoinPost, JoinPost>::new(pg()).columns(post_user_id());
    let q = SetOpQuery::new(pg(), SetOp::Union, left, right);
    let c = q.to_sql().unwrap();
    assert_eq!(
        c.sql,
        r#"(SELECT "users"."id" FROM "users") UNION (SELECT "posts"."user_id" FROM "posts")"#
    );
    assert!(c.binds.is_empty());
}

#[test]
fn union_all_sqlite() {
    let left = SelectQuery::<JoinUser, JoinUser>::new(sqlite())
        .filter(user_id().eq(1))
        .columns(user_id());
    let right = SelectQuery::<JoinPost, JoinPost>::new(sqlite())
        .filter(post_user_id().eq(2))
        .columns(post_user_id());
    let q = SetOpQuery::new(sqlite(), SetOp::UnionAll, left, right);
    let c = q.to_sql().unwrap();
    assert_eq!(
        c.sql,
        r#"SELECT * FROM (SELECT `users`.`id` FROM `users` WHERE `users`.`id` = ?) AS __rz_l UNION ALL SELECT * FROM (SELECT `posts`.`user_id` FROM `posts` WHERE `posts`.`user_id` = ?) AS __rz_r"#
    );
    assert_eq!(c.binds, vec![Value::I64(1), Value::I64(2)]);
}

#[test]
fn set_op_with_binds_postgres() {
    let left = SelectQuery::<JoinUser, JoinUser>::new(pg())
        .filter(user_id().eq(1))
        .columns(user_id());
    let right = SelectQuery::<JoinPost, JoinPost>::new(pg())
        .filter(post_user_id().in_(vec![2_i64, 3_i64]))
        .columns(post_user_id());
    let q = SetOpQuery::new(pg(), SetOp::Union, left, right);
    let c = q.to_sql().unwrap();
    assert_eq!(
        c.sql,
        r#"(SELECT "users"."id" FROM "users" WHERE "users"."id" = $1) UNION (SELECT "posts"."user_id" FROM "posts" WHERE "posts"."user_id" IN ($2, $3))"#
    );
    assert_eq!(c.binds, vec![Value::I64(1), Value::I64(2), Value::I64(3)]);
}

#[test]
fn intersect_sql_postgres() {
    let left = SelectQuery::<JoinUser, JoinUser>::new(pg()).columns(user_id());
    let right = SelectQuery::<JoinPost, JoinPost>::new(pg()).columns(post_user_id());
    let q = SetOpQuery::new(pg(), SetOp::Intersect, left, right);
    let c = q.to_sql().unwrap();
    assert_eq!(
        c.sql,
        r#"(SELECT "users"."id" FROM "users") INTERSECT (SELECT "posts"."user_id" FROM "posts")"#
    );
    assert!(c.binds.is_empty());
}

#[test]
fn except_sql_postgres() {
    let left = SelectQuery::<JoinUser, JoinUser>::new(pg()).columns(user_id());
    let right = SelectQuery::<JoinPost, JoinPost>::new(pg()).columns(post_user_id());
    let q = SetOpQuery::new(pg(), SetOp::Except, left, right);
    let c = q.to_sql().unwrap();
    assert_eq!(
        c.sql,
        r#"(SELECT "users"."id" FROM "users") EXCEPT (SELECT "posts"."user_id" FROM "posts")"#
    );
    assert!(c.binds.is_empty());
}

#[test]
fn set_op_paging_is_appended() {
    let left = SelectQuery::<JoinUser, JoinUser>::new(pg()).columns(user_id());
    let right = SelectQuery::<JoinPost, JoinPost>::new(pg()).columns(post_user_id());
    let q = SetOpQuery::new(pg(), SetOp::UnionAll, left, right).limit(5).offset(10);
    let c = q.to_sql().unwrap();
    assert_eq!(
        c.sql,
        r#"(SELECT "users"."id" FROM "users") UNION ALL (SELECT "posts"."user_id" FROM "posts") LIMIT 5 OFFSET 10"#
    );
}

#[test]
fn intersect_is_refused_on_mysql() {
    let left = SelectQuery::<JoinUser, JoinUser>::new(Dialect::MySql).columns(user_id());
    let right = SelectQuery::<JoinPost, JoinPost>::new(Dialect::MySql).columns(post_user_id());
    let q = SetOpQuery::new(Dialect::MySql, SetOp::Intersect, left, right);
    match q.to_sql() {
        Err(Error::Message(m)) => assert_eq!(m, "INTERSECT is not supported by mysql"),
        _ => panic!("expected a refusal"),
    }
}

#[test]
fn full_join_is_refused_on_mysql() {
    let q = SelectQuery::<JoinUser, JoinUser>::new(Dialect::MySql)
        .full_join::<JoinPost>(JoinOn::new(user_id(), post_user_id()));
    match q.to_sql() {
        Err(Error::Message(m)) => assert_eq!(m, "FULL OUTER JOIN is not supported by mysql"),
        _ => panic!("expected a refusal"),
    }
}

#[test]
fn left_join_builder_compiles_like_join_select() {
    let q: SelectQuery<JoinUser, LeftJoin2<JoinUser, JoinPost>> =
        SelectQuery::<JoinUser, JoinUser>::new(pg()).left_join::<JoinPost>(JoinOn::new(user_id(), post_user_id()));
    let c = q.to_sql().unwrap();
    assert!(c.sql.starts_with("SELECT "));
    assert!(c.sql.contains(r#" LEFT JOIN "posts" ON "users"."id" = "posts"."user_id""#));
}

#[test]
fn soft_deleted_rows_are_hidden_by_default() {
    let c = SelectQuery::<Doc, Doc>::new(pg()).to_sql().unwrap();
    assert_eq!(
        c.sql,
        r#"SELECT "docs"."id", "docs"."title", "docs"."deleted_at" FROM "docs" WHERE "docs"."deleted_at" IS NULL"#
    );
    let c = SelectQuery::<Doc, Doc>::new(pg())
        .filter(doc_title().eq("a"))
        .to_sql()
        .unwrap();
    assert_eq!(
        c.sql,
        r#"SELECT "docs"."id", "docs"."title", "docs"."deleted_at" FROM "docs" WHERE ("docs"."title" = $1 AND "docs"."deleted_at" IS NULL)"#
    );
}

#[test]
fn only_deleted_and_with_deleted() {
    let c = SelectQuery::<Doc, Doc>::new(pg()).only_deleted().to_sql().unwrap();
    assert!(c.sql.ends_with(r#"WHERE "docs"."deleted_at" IS NOT NULL"#));
    let c = SelectQuery::<Doc, Doc>::new(pg()).with_deleted().to_sql().unwrap();
    assert_eq!(c.sql, r#"SELECT "docs"."id", "docs"."title", "docs"."deleted_at" FROM "docs""#);
}

#[test]
fn count_and_exists_statements() {
    let q = SelectQuery::<User, User>::new(pg())
        .filter(id().gt(3))
        .order_by(id().desc())
        .limit(2);
    assert_eq!(
        q.count_sql().unwrap().sql,
        r#"SELECT COUNT(*) FROM "users" WHERE "users"."id" > $1"#
    );
    assert_eq!(
        q.exists_sql().unwrap().sql,
        r#"SELECT 1 FROM "users" WHERE "users"."id" > $1 LIMIT 1"#
    );
}

#[test]
fn count_from_rows_takes_last_row() {
    assert_eq!(count_from_rows(vec![7]).unwrap(), 7);
    match count_from_rows(Vec::new()) {
        Err(Error::Message(m)) => assert_eq!(m, "COUNT(*) returned no row"),
        _ => panic!("expected an error"),
    }
}

#[test]
fn page_query_orders_by_key_and_overfetches() {
    let c = SelectQuery::<User, User>::new(pg()).page_query(10).to_sql().unwrap();
    assert_eq!(c.sql, r#"SELECT * FROM "users" ORDER BY "users"."id" ASC LIMIT 11"#);
    let c = SelectQuery::<User, User>::new(pg()).page_query(u64::MAX).to_sql().unwrap();
    assert!(c.sql.ends_with(&format!("LIMIT {}", u64::MAX)));
}

#[test]
fn page_from_overfetch_is_exact() {
    let p: Page<i32> = Page::from_overfetch(vec![1, 2, 3], 2);
    assert!(p.has_next);
    assert_eq!(p.items, vec![1, 2]);
    let p: Page<i32> = Page::from_overfetch(vec![1, 2], 2);
    assert!(!p.has_next);
    assert_eq!(p.items, vec![1, 2]);
    assert!(p.next_cursor.is_none());
}

#[test]
fn aggregate_query_sql() {
    let count = Column::<User, i64>::new("users", "id").count();
    let q = SelectQuery::<User, User>::new(pg())
        .filter(id().gt(1))
        .group_by(vec!["role"])
        .having(id().gt(5))
        .aggregate::<(i64,)>(vec![count.entry()]);
    let c = q.to_sql();
    assert!(c.sql.starts_with("SELECT "));
    assert!(c.sql.contains(r#" WHERE "users"."id" > $1"#));
    assert!(c.sql.contains(r#" HAVING "users"."id" > $2"#));
    assert_eq!(c.binds, vec![Value::I64(1), Value::I64(5)]);
    assert_eq!(count.kind(), AggregateKind::Count);
}

#[test]
fn existence_subquery_wraps_compiled_select() {
    let e = ExistsSubquery::from_compiled(SelectQuery::<Reports, Reports>::new(pg()).to_sql().unwrap());
    let c = SelectQuery::<User, User>::new(pg())
        .filter(Filter::<User>::exists_query(e))
        .to_sql()
        .unwrap();
    assert_eq!(
        c.sql,
        r#"SELECT * FROM "users" WHERE EXISTS (SELECT "reports"."id", "reports"."name", "reports"."manager_id" FROM "reports")"#
    );
}
