use ruprizzle::col::Column;
use ruprizzle::compile::{
    count, delete, exists_select, insert, join_select, select, update, upsert, CompiledSql,
};
use ruprizzle::dialect::Dialect;
use ruprizzle::filter::{all, any, CmpOp, Filter, FilterNode, RawFragment};
use ruprizzle::join::JoinKind;
use ruprizzle::model::Model;
use ruprizzle::order::OrderBy;
use ruprizzle::value::Value;

struct User;
impl Model for User {
    const TABLE: &'static str = "users";
    const PRIMARY_KEY: &'static str = "id";
    const COLUMNS: &'static [&'static str] = &[];
    const DELETED_AT_COLUMN: Option<&'static str> = None;
}

struct JoinUser;
impl Model for JoinUser {
    const TABLE: &'static str = "users";
    const PRIMARY_KEY: &'static str = "id";
    const COLUMNS: &'static [&'static str] = &["id", "name"];
    const DELETED_AT_COLUMN: Option<&'static str> = None;
}

struct JoinPost;
impl Model for JoinPost {
    const TABLE: &'static str = "posts";
    const PRIMARY_KEY: &'static str = "id";
    const COLUMNS: &'static [&'static str] = &["id", "title", "user_id"];
    const DELETED_AT_COLUMN: Option<&'static str> = None;
}

struct SelfJoinUser;
impl Model for SelfJoinUser {
    const TABLE: &'static str = "employees";
    const PRIMARY_KEY: &'static str = "id";
    const COLUMNS: &'static [&'static str] = &["id", "name", "manager_id"];
    const DELETED_AT_COLUMN: Option<&'static str> = None;
}

struct Post;
impl Model for Post {
    const TABLE: &'static str = "posts";
    const PRIMARY_KEY: &'static str = "id";
    const COLUMNS: &'static [&'static str] = &[];
    const DELETED_AT_COLUMN: Option<&'static str> = None;
}

fn id() -> Column<User, i64> {
    Column::new("users", "id")
}
fn email() -> Column<User, Option<String>> {
    Column::new("users", "email")
}
fn age() -> Column<User, i32> {
    Column::new("users", "age")
}
fn user_id() -> Column<JoinUser, i64> {
    Column::new("users", "id")
}
fn post_user_id() -> Column<JoinPost, i64> {
    Column::new("posts", "user_id")
}
fn employee_id() -> Column<SelfJoinUser, i64> {
    Column::new("employees", "id")
}
fn manager_id() -> Column<SelfJoinUser, i64> {
    Column::new("employees", "manager_id")
}

fn pg() -> Dialect {
    Dialect::Postgres
}
fn sqlite() -> Dialect {
    Dialect::Sqlite
}
fn empty() -> FilterNode {
    FilterNode::And(vec![])
}

#[test]
fn select_no_filter() {
    let c = select::<User>(pg(), "users", &[], &empty(), &[], None, None, false);
    assert_eq!(c.sql, r#"SELECT * FROM "users""#);
    assert!(c.binds.is_empty());
}

#[test]
fn select_projection() {
    let c = select::<User>(pg(), "users", &["id", "email"], &empty(), &[], None, None, false);
    assert_eq!(c.sql, r#"SELECT "users"."id", "users"."email" FROM "users""#);
    assert!(c.binds.is_empty());
}

#[test]
fn select_with_filter() {
    let f = id().eq(1);
    let c = select::<User>(pg(), "users", &[], &f.node, &[], None, None, false);
    assert_eq!(c.sql, r#"SELECT * FROM "users" WHERE "users"."id" = $1"#);
    assert_eq!(c.binds, vec![Value::I64(1)]);
}

#[test]
fn placeholders_are_sqlite_q() {
    let f = id().eq(1).and(email().eq("a".to_string()));
    let c = select::<User>(sqlite(), "users", &[], &f.node, &[], None, None, false);
    assert_eq!(
        c.sql,
        r#"SELECT * FROM `users` WHERE (`users`.`id` = ? AND `users`.`email` = ?)"#
    );
    assert_eq!(c.binds, vec![Value::I64(1), Value::Str("a".into())]);
}

#[test]
fn ordering_and_pagination() {
    let c = select::<User>(
        pg(),
        "users",
        &[],
        &empty(),
        &[OrderBy::new("users", "id", true)],
        Some(10),
        Some(20),
        false,
    );
    assert_eq!(
        c.sql,
        r#"SELECT * FROM "users" ORDER BY "users"."id" DESC LIMIT 10 OFFSET 20"#
    );
}

#[test]
fn all_empty_is_true_any_empty_is_false() {
    let a: Filter<User> = all(Vec::<Filter<User>>::new());
    let c = select::<User>(pg(), "users", &[], &a.node, &[], None, None, false);
    assert_eq!(c.sql, r#"SELECT * FROM "users""#);

    let a: Filter<User> = any(Vec::<Filter<User>>::new());
    let c = select::<User>(pg(), "users", &[], &a.node, &[], None, None, false);
    assert_eq!(c.sql, r#"SELECT * FROM "users" WHERE FALSE"#);
}

#[test]
fn filter_flattening_and_combinators() {
    let f = id().eq(1).and(age().gt(0)).and(email().eq("a".to_string()));
    let c = select::<User>(pg(), "users", &[], &f.node, &[], None, None, false);
    assert_eq!(
        c.sql,
        r#"SELECT * FROM "users" WHERE ("users"."id" = $1 AND "users"."age" > $2 AND "users"."email" = $3)"#
    );

    let f = id().eq(1).or(age().gt(0)).or(email().eq("a".to_string()));
    let c = select::<User>(pg(), "users", &[], &f.node, &[], None, None, false);
    assert_eq!(
        c.sql,
        r#"SELECT * FROM "users" WHERE ("users"."id" = $1 OR "users"."age" > $2 OR "users"."email" = $3)"#
    );

    let f = (!id().eq(1)).and(age().in_(vec![1, 2, 3]));
    let c = select::<User>(pg(), "users", &[], &f.node, &[], None, None, false);
    assert_eq!(
        c.sql,
        r#"SELECT * FROM "users" WHERE (NOT ("users"."id" = $1) AND "users"."age" IN ($2, $3, $4))"#
    );
    assert_eq!(
        c.binds,
        vec![Value::I64(1), Value::I32(1), Value::I32(2), Value::I32(3)]
    );
}

#[test]
fn relation_exists_filter() {
    let child = Filter::<Post>::new(FilterNode::Cmp {
        table: "posts",
        column: "published",
        op: CmpOp::Eq,
        value: Value::Bool(true),
    });

    let f = Filter::<User>::new(FilterNode::Exists {
        child_table: "posts",
        child_col: "author_id",
        parent_table: "users",
        parent_col: "id",
        filter: Box::new(child.node.clone()),
        negated: false,
    });
    let c = select::<User>(pg(), "users", &[], &f.node, &[], None, None, false);
    assert_eq!(
        c.sql,
        r#"SELECT * FROM "users" WHERE EXISTS (SELECT 1 FROM "posts" WHERE "posts"."author_id" = "users"."id" AND "posts"."published" = $1)"#
    );
    assert_eq!(c.binds, vec![Value::Bool(true)]);

    let f = Filter::<User>::new(FilterNode::Exists {
        child_table: "posts",
        child_col: "author_id",
        parent_table: "users",
        parent_col: "id",
        filter: Box::new(child.node.clone()),
        negated: true,
    });
    let c = select::<User>(pg(), "users", &[], &f.node, &[], None, None, false);
    assert_eq!(
        c.sql,
        r#"SELECT * FROM "users" WHERE NOT EXISTS (SELECT 1 FROM "posts" WHERE "posts"."author_id" = "users"."id" AND "posts"."published" = $1)"#
    );
}

#[test]
fn null_and_between_and_like() {
    let f = email().is_null().and(age().between(0, 120));
    let c = select::<User>(pg(), "users", &[], &f.node, &[], None, None, false);
    assert_eq!(
        c.sql,
        r#"SELECT * FROM "users" WHERE ("users"."email" IS NULL AND "users"."age" BETWEEN $1 AND $2)"#
    );
}

#[test]
fn insert_sql() {
    let c = insert::<User>(
        pg(),
        "users",
        &[("email", Value::Str("a@b.c".into())), ("age", Value::I32(30))],
        &[],
    );
    assert_eq!(c.sql, r#"INSERT INTO "users" ("email", "age") VALUES ($1, $2)"#);
}

#[test]
fn update_and_delete_guards() {
    let u = update::<User>(pg(), "users", &[("age", Value::I32(30))], &empty(), &[]);
    assert!(u.sql.starts_with(r#"UPDATE "users" SET "age" = $1"#));

    let d = delete::<User>(pg(), "users", &empty(), &[]);
    assert!(d.sql.starts_with(r#"DELETE FROM "users""#));
}

#[test]
fn upsert_sql() {
    let c = upsert::<User>(
        pg(),
        "users",
        &[("email", Value::Str("a@b.c".into())), ("age", Value::I32(30))],
        &["email"],
        &["age"],
        &[],
    );
    assert_eq!(
        c.sql,
        r#"INSERT INTO "users" ("email", "age") VALUES ($1, $2) ON CONFLICT (email) DO UPDATE SET "age" = EXCLUDED."age""#
    );
    assert_eq!(c.binds, vec![Value::Str("a@b.c".into()), Value::I32(30)]);
}

#[test]
fn raw_filter_postgres() {
    let fragment = RawFragment::new(
        vec!["email = ".to_string(), "".to_string()],
        vec![Value::Str("a@b.c".into())],
    );
    let f: Filter<User> = Filter::raw(fragment);
    let c = select::<User>(pg(), "users", &[], &f.node, &[], None, None, false);
    assert_eq!(c.sql, r#"SELECT * FROM "users" WHERE email = $1"#);
    assert_eq!(c.binds, vec![Value::Str("a@b.c".into())]);
}

#[test]
fn raw_filter_sqlite() {
    let fragment = RawFragment::new(
        vec!["email = ".to_string(), "".to_string()],
        vec![Value::Str("a@b.c".into())],
    );
    let f: Filter<User> = Filter::raw(fragment);
    let c = select::<User>(sqlite(), "users", &[], &f.node, &[], None, None, false);
    assert_eq!(c.sql, r#"SELECT * FROM `users` WHERE email = ?"#);
    assert_eq!(c.binds, vec![Value::Str("a@b.c".into())]);
}

#[test]
fn raw_fragment_sql() {
    let raw = RawFragment::new(
        vec!["x = ".to_string(), " AND y = ".to_string(), "".to_string()],
        vec![Value::I64(1), Value::I64(2)],
    );
    assert_eq!(raw.sql(), "x = $1 AND y = $2");
    assert_eq!(raw.binds(), &[Value::I64(1), Value::I64(2)]);
}

#[test]
fn count_ignores_order_limit() {
    let f = age().gt(0);
    let c = count::<User>(pg(), "users", &f.node);
    assert_eq!(c.sql, r#"SELECT COUNT(*) FROM "users" WHERE "users"."age" > $1"#);
    assert_eq!(c.binds, vec![Value::I32(0)]);
}

#[test]
fn exists_adds_limit_1() {
    let f = age().gt(0);
    let c = exists_select::<User>(pg(), "users", &f.node);
    assert_eq!(c.sql, r#"SELECT 1 FROM "users" WHERE "users"."age" > $1 LIMIT 1"#);
    assert_eq!(c.binds, vec![Value::I32(0)]);
}

fn join_case(d: Dialect, kind: JoinKind) -> CompiledSql {
    join_select::<JoinUser, JoinPost>(
        d,
        "users",
        "posts",
        None,
        kind,
        &user_id().on(post_user_id()).into_node(),
        &empty(),
        &[],
        None,
        None,
        false,
    )
}

#[test]
fn inner_join_sql_postgres() {
    let c = join_case(pg(), JoinKind::Inner);
    assert_eq!(
        c.sql,
        r#"SELECT "users"."id", "users"."name", "posts"."id", "posts"."title", "posts"."user_id" FROM "users" INNER JOIN "posts" ON "users"."id" = "posts"."user_id""#
    );
    assert!(c.binds.is_empty());
}

#[test]
fn right_join_sql_postgres() {
    let c = join_case(pg(), JoinKind::Right);
    assert_eq!(
        c.sql,
        r#"SELECT "users"."id", "users"."name", "posts"."id", "posts"."title", "posts"."user_id" FROM "users" RIGHT JOIN "posts" ON "users"."id" = "posts"."user_id""#
    );
    assert!(c.binds.is_empty());
}

#[test]
fn full_join_sql_postgres() {
    let c = join_case(pg(), JoinKind::Full);
    assert_eq!(
        c.sql,
        r#"SELECT "users"."id", "users"."name", "posts"."id", "posts"."title", "posts"."user_id" FROM "users" FULL OUTER JOIN "posts" ON "users"."id" = "posts"."user_id""#
    );
    assert!(c.binds.is_empty());
}

#[test]
fn left_join_sql_sqlite() {
    let c = join_case(sqlite(), JoinKind::Left);
    assert_eq!(
        c.sql,
        r#"SELECT `users`.`id`, `users`.`name`, `posts`.`id`, `posts`.`title`, `posts`.`user_id` FROM `users` LEFT JOIN `posts` ON `users`.`id` = `posts`.`user_id`"#
    );
    assert!(c.binds.is_empty());
}

#[test]
fn self_join_sql_postgres() {
    let c = join_select::<SelfJoinUser, SelfJoinUser>(
        pg(),
        "employees",
        "employees",
        Some("m"),
        JoinKind::Inner,
        &manager_id().on(employee_id().aliased("m")).into_node(),
        &empty(),
        &[],
        None,
        None,
        false,
    );
    assert_eq!(
        c.sql,
        r#"SELECT "employees"."id", "employees"."name", "employees"."manager_id", "m"."id", "m"."name", "m"."manager_id" FROM "employees" INNER JOIN "employees" AS "m" ON "employees"."manager_id" = "m"."id""#
    );
    assert!(c.binds.is_empty());
}

fn compiled(sql: &str, binds: Vec<Value>) -> CompiledSql {
    CompiledSql { sql: sql.to_string(), binds }
}

#[test]
fn in_subquery_postgres() {
    let subquery = compiled(
        r#"SELECT "posts"."author_id" FROM "posts" WHERE "posts"."published" = $1"#,
        vec![Value::Bool(true)],
    );
    let f = Filter::<User>::new(FilterNode::InSubquery {
        table: "users",
        column: "id",
        subquery,
        negated: false,
    });
    let c = select::<User>(pg(), "users", &["id", "name"], &f.node, &[], None, None, false);
    assert_eq!(
        c.sql,
        r#"SELECT "users"."id", "users"."name" FROM "users" WHERE "users"."id" IN (SELECT "posts"."author_id" FROM "posts" WHERE "posts"."published" = $1)"#
    );
    assert_eq!(c.binds, vec![Value::Bool(true)]);
}

#[test]
fn in_subquery_sqlite() {
    let subquery = compiled(
        r#"SELECT `posts`.`author_id` FROM `posts` WHERE `posts`.`published` = ?"#,
        vec![Value::Bool(true)],
    );
    let f = Filter::<User>::new(FilterNode::InSubquery {
        table: "users",
        column: "id",
        subquery,
        negated: false,
    });
    let c = select::<User>(sqlite(), "users", &["id", "name"], &f.node, &[], None, None, false);
    assert_eq!(
        c.sql,
        r#"SELECT `users`.`id`, `users`.`name` FROM `users` WHERE `users`.`id` IN (SELECT `posts`.`author_id` FROM `posts` WHERE `posts`.`published` = ?)"#
    );
    assert_eq!(c.binds, vec![Value::Bool(true)]);
}

#[test]
fn in_subquery_postgres_with_outer_binds() {
    let subquery = compiled(
        r#"SELECT "posts"."author_id" FROM "posts" WHERE "posts"."published" = $1 AND "posts"."title" = $2"#,
        vec![Value::Bool(true), Value::Str("First".into())],
    );
    let f = Filter::<User>::new(FilterNode::And(vec![
        FilterNode::Cmp {
            table: "users",
            column: "age",
            op: CmpOp::Eq,
            value: Value::I32(30),
        },
        FilterNode::InSubquery {
            table: "users",
            column: "id",
            subquery,
            negated: true,
        },
    ]));
    let c = select::<User>(pg(), "users", &["id", "name"], &f.node, &[], None, None, false);
    assert_eq!(
        c.sql,
        r#"SELECT "users"."id", "users"."name" FROM "users" WHERE ("users"."age" = $1 AND "users"."id" NOT IN (SELECT "posts"."author_id" FROM "posts" WHERE "posts"."published" = $2 AND "posts"."title" = $3))"#
    );
    assert_eq!(
        c.binds,
        vec![Value::I32(30), Value::Bool(true), Value::Str("First".into())]
    );
}

#[test]
fn exists_subquery_postgres() {
    let subquery = compiled(
        r#"SELECT "posts"."id" FROM "posts" WHERE "posts"."author_id" = "users"."id""#,
        vec![],
    );
    let f = Filter::<User>::new(FilterNode::ExistsSubquery {
        subquery,
        negated: false,
    });
    let c = select::<User>(pg(), "users", &["id", "name"], &f.node, &[], None, None, false);
    assert_eq!(
        c.sql,
        r#"SELECT "users"."id", "users"."name" FROM "users" WHERE EXISTS (SELECT "posts"."id" FROM "posts" WHERE "posts"."author_id" = "users"."id")"#
    );
    assert!(c.binds.is_empty());
}

#[test]
fn not_exists_subquery_sqlite() {
    let subquery = compiled(
        r#"SELECT `posts`.`id` FROM `posts` WHERE `posts`.`author_id` = `users`.`id`"#,
        vec![],
    );
    let f = Filter::<User>::new(FilterNode::ExistsSubquery {
        subquery,
        negated: true,
    });
    let c = select::<User>(sqlite(), "users", &["id", "name"], &f.node, &[], None, None, false);
    assert_eq!(
        c.sql,
        r#"SELECT `users`.`id`, `users`.`name` FROM `users` WHERE NOT EXISTS (SELECT `posts`.`id` FROM `posts` WHERE `posts`.`author_id` = `users`.`id`)"#
    );
    assert!(c.binds.is_empty());
}

#[test]
fn exists_subquery_postgres_with_outer_binds() {
    let subquery = compiled(
        r#"SELECT "posts"."id" FROM "posts" WHERE "posts"."author_id" = "users"."id" AND "posts"."published" = $1"#,
        vec![Value::Bool(true)],
    );
    let f = Filter::<User>::new(FilterNode::And(vec![
        FilterNode::Cmp {
            table: "users",
            column: "age",
            op: CmpOp::Gt,
            value: Value::I32(30),
        },
        FilterNode::ExistsSubquery {
            subquery,
            negated: false,
        },
    ]));
    let c = select::<User>(pg(), "users", &["id", "name"], &f.node, &[], None, None, false);
    assert_eq!(
        c.sql,
        r#"SELECT "users"."id", "users"."name" FROM "users" WHERE ("users"."age" > $1 AND EXISTS (SELECT "posts"."id" FROM "posts" WHERE "posts"."author_id" = "users"."id" AND "posts"."published" = $2))"#
    );
    assert_eq!(c.binds, vec![Value::I32(30), Value::Bool(true)]);
}

#[test]
fn values_never_reach_the_text() {
    let shape = |name: &str, ids: Vec<Value>| {
        FilterNode::And(vec![
            FilterNode::Cmp { table: "users", column: "name", op: CmpOp::Eq, value: Value::Str(name.into()) },
            FilterNode::In { table: "users", column: "id", values: ids, negated: false },
        ])
    };
    let a = select::<User>(Dialect::Postgres, "users", &[], &shape("x'; DROP TABLE users; --", vec![Value::I64(1), Value::I64(2)]), &[], None, None, false);
    let b = select::<User>(Dialect::Postgres, "users", &[], &shape("bob", vec![Value::I64(7), Value::I64(8)]), &[], None, None, false);
    assert_eq!(a.sql, b.sql);
    assert_eq!(a.sql, r#"SELECT * FROM "users" WHERE ("users"."name" = $1 AND "users"."id" IN ($2, $3))"#);
    assert_eq!(a.binds.len(), b.binds.len());
    assert_eq!(a.binds[0], Value::Str("x'; DROP TABLE users; --".into()));
}

#[test]
fn ilike_is_like_outside_postgres() {
    let users_name: Column<User, String> = Column::new("users", "name");
    let node = users_name.ilike("al").node;
    let mut c = ruprizzle::compile::Compiler::new(sqlite());
    c.push_filter(&node);
    let out = c.finish();
    assert_eq!(out.sql, "`users`.`name` LIKE ?");
    assert_eq!(out.binds, vec![Value::Str("%al%".into())]);
    let mut c = ruprizzle::compile::Compiler::new(pg());
    c.push_filter(&node);
    assert_eq!(c.finish().sql, r#""users"."name" ILIKE $1"#);
    let mut c = ruprizzle::compile::Compiler::new(Dialect::MySql);
    c.push_filter(&node);
    assert_eq!(c.finish().sql, "`users`.`name` LIKE ?");
}

#[test]
fn placeholders_number_the_binds_in_order() {
    let raw = RawFragment::new(vec!["lower(name) = ".into(), " OR age > ".into()], vec![Value::Str("al".into()), Value::I64(3)]);
    let node = FilterNode::And(vec![
        FilterNode::Between { table: "users", column: "age", lo: Value::I64(1), hi: Value::I64(9) },
        FilterNode::In { table: "users", column: "id", values: vec![Value::I64(4), Value::I64(5)], negated: false },
        FilterNode::Raw(raw),
    ]);
    let c = select::<User>(pg(), "users", &[], &node, &[], None, None, false);
    assert_eq!(
        c.sql,
        r#"SELECT * FROM "users" WHERE ("users"."age" BETWEEN $1 AND $2 AND "users"."id" IN ($3, $4) AND lower(name) = $5 OR age > $6)"#
    );
    assert_eq!(c.binds.len(), 6);
}
