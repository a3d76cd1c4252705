use ruprizzle::col::Column;
use ruprizzle::dialect::Dialect;
use ruprizzle::error::Error;
use ruprizzle::model::Model;
use ruprizzle::rel::{CascadeRule, CascadeStep, DeleteAction, DeleteCascade};
use ruprizzle::value::Value;
use ruprizzle::write::{
    children_reload_sql, inserted_row, nested_child_statements, validate_row_shape, DeleteQuery,
    InsertManyQuery, InsertQuery, UpdateQuery,
};

struct User;
impl Model for User {
    const TABLE: &'static str = "users";
    const PRIMARY_KEY: &'static str = "id";
    const COLUMNS: &'static [&'static str] = &[];
    const DELETED_AT_COLUMN: Option<&'static str> = None;
}

struct Post;
impl Model for Post {
    const TABLE: &'static str = "posts";
    const PRIMARY_KEY: &'static str = "id";
    const COLUMNS: &'static [&'static str] = &["id", "title"];
    const DELETED_AT_COLUMN: Option<&'static str> = Some("deleted_at");
}

fn id() -> Column<User, i64> {
    Column::new("users", "id")
}
fn email() -> Column<User, String> {
    Column::new("users", "email")
}
fn age() -> Column<User, i32> {
    Column::new("users", "age")
}
fn post_id() -> Column<Post, i64> {
    Column::new("posts", "id")
}

fn message(e: Error) -> String {
    match e {
        Error::Message(m) => m,
        _ => panic!("expected a message error"),
    }
}

#[test]
fn insert_query_sql() {
    let q = InsertQuery::<User>::new(Dialect::Postgres).set(email(), "a@b.c").set(age(), 30);
    let c = q.to_sql();
    assert_eq!(c.sql, r#"INSERT INTO "users" ("email", "age") VALUES ($1, $2)"#);
    assert_eq!(c.binds, vec![Value::Str("a@b.c".into()), Value::I32(30)]);
}

#[test]
fn insert_query_skips_missing_optional() {
    let q = InsertQuery::<User>::new(Dialect::Sqlite)
        .set(email(), "a@b.c")
        .set_optional(age(), None::<i32>)
        .set_if(id(), Some(4_i64));
    let c = q.to_sql();
    assert_eq!(c.sql, "INSERT INTO `users` (`email`, `id`) VALUES (?, ?)");
    assert_eq!(c.binds, vec![Value::Str("a@b.c".into()), Value::I64(4)]);
}

#[test]
fn insert_query_upsert_sql() {
    let q = InsertQuery::<User>::new(Dialect::Postgres)
        .set(email(), "a@b.c")
        .set(age(), 30)
        .on_conflict(vec!["email"])
        .do_update(vec!["age"]);
    let c = q.to_sql();
    assert_eq!(
        c.sql,
        r#"INSERT INTO "users" ("email", "age") VALUES ($1, $2) ON CONFLICT (email) DO UPDATE SET "age" = EXCLUDED."age""#
    );
}

#[test]
fn update_without_filter_is_refused() {
    let q = UpdateQuery::<User>::new(Dialect::Postgres).set(age(), 30);
    assert_eq!(
        message(q.to_sql().unwrap_err()),
        "update has no filter; call .all_rows() to update every row"
    );
}

#[test]
fn update_without_columns_is_refused() {
    let q = UpdateQuery::<User>::new(Dialect::Postgres).filter(id().eq(1));
    assert_eq!(message(q.to_sql().unwrap_err()), "update has no columns to set");
}

#[test]
fn update_sql_numbers_filter_after_sets() {
    let q = UpdateQuery::<User>::new(Dialect::Postgres)
        .set(age(), 30)
        .set_null(email())
        .where_clause(id().eq(7));
    let c = q.to_sql().unwrap();
    assert_eq!(
        c.sql,
        r#"UPDATE "users" SET "age" = $1, "email" = $2 WHERE "users"."id" = $3"#
    );
    assert_eq!(c.binds, vec![Value::I32(30), Value::Null, Value::I64(7)]);
}

#[test]
fn update_filter_if_none_allows_all_rows() {
    let q = UpdateQuery::<User>::new(Dialect::Postgres).set(age(), 1).filter_if(None);
    assert_eq!(q.to_sql().unwrap().sql, r#"UPDATE "users" SET "age" = $1"#);
}

#[test]
fn soft_delete_needs_a_deleted_at_column() {
    let r = UpdateQuery::<User>::new(Dialect::Postgres).soft_delete_at("2024-01-01T00:00:00+00:00".into());
    match r {
        Err(e) => assert_eq!(
            message(e),
            "Model 'users' does not have a @deletedAt column configured"
        ),
        Ok(_) => panic!("expected a refusal"),
    }
    let q = UpdateQuery::<Post>::new(Dialect::Postgres)
        .filter(post_id().eq(3))
        .soft_delete_at("2024-01-01T00:00:00+00:00".into())
        .ok()
        .unwrap();
    let c = q.to_sql().unwrap();
    assert_eq!(c.sql, r#"UPDATE "posts" SET "deleted_at" = $1 WHERE "posts"."id" = $2"#);
    assert_eq!(
        c.binds,
        vec![Value::Str("2024-01-01T00:00:00+00:00".into()), Value::I64(3)]
    );
}

#[test]
fn soft_delete_sets_a_timestamp() {
    let q = UpdateQuery::<Post>::new(Dialect::Postgres)
        .all_rows()
        .soft_delete()
        .ok()
        .unwrap();
    let c = q.to_sql().unwrap();
    assert_eq!(c.sql, r#"UPDATE "posts" SET "deleted_at" = $1"#);
    match &c.binds[0] {
        Value::Str(s) => assert!(s.len() >= 20 && s.contains('T')),
        _ => panic!("expected a text timestamp"),
    }
}

#[test]
fn delete_needs_filter_or_all_rows() {
    let d = DeleteQuery::<User, _>::new(Dialect::Postgres).filter(id().eq(1));
    let c = d.to_sql().unwrap();
    assert_eq!(c.sql, r#"DELETE FROM "users" WHERE "users"."id" = $1"#);
    assert_eq!(c.binds, vec![Value::I64(1)]);

    let d = DeleteQuery::<User, _>::new(Dialect::Postgres).all_rows();
    assert_eq!(d.to_sql().unwrap().sql, r#"DELETE FROM "users""#);

    let d = DeleteQuery::<User, _>::new(Dialect::Postgres).filter(ruprizzle::filter::all(Vec::new()));
    assert_eq!(
        message(d.to_sql().unwrap_err()),
        "delete has no filter; call .all_rows() to delete every row"
    );
}

#[test]
fn delete_plan_without_cascade_is_the_delete() {
    let p = DeleteQuery::<User, _>::new(Dialect::Postgres)
        .filter(id().eq(1))
        .plan()
        .unwrap();
    assert!(p.cascades.is_empty());
    assert_eq!(p.delete.sql, r#"DELETE FROM "users" WHERE "users"."id" = $1"#);
}

#[test]
fn delete_plan_cascades_in_order() {
    let p = DeleteQuery::<User, _>::new(Dialect::Postgres)
        .cascade::<Post>("author_id", DeleteAction::Cascade)
        .filter(id().eq(1))
        .cascade::<Post>("editor_id", DeleteAction::SetNull)
        .cascade::<Post>("owner_id", DeleteAction::Restrict)
        .cascade::<Post>("viewer_id", DeleteAction::NoAction)
        .plan()
        .unwrap();
    assert_eq!(p.cascades.len(), 4);
    match &p.cascades[0] {
        CascadeStep::Execute(c) => {
            assert_eq!(
                c.sql,
                r#"DELETE FROM "posts" WHERE "posts"."author_id" IN (SELECT "users"."id" FROM "users" WHERE "users"."id" = $1)"#
            );
            assert_eq!(c.binds, vec![Value::I64(1)]);
        }
        _ => panic!("expected a delete"),
    }
    match &p.cascades[1] {
        CascadeStep::Execute(c) => {
            assert_eq!(
                c.sql,
                r#"UPDATE "posts" SET "editor_id" = $1 WHERE "posts"."editor_id" IN (SELECT "users"."id" FROM "users" WHERE "users"."id" = $2)"#
            );
            assert_eq!(c.binds, vec![Value::Null, Value::I64(1)]);
        }
        _ => panic!("expected an update"),
    }
    match &p.cascades[2] {
        CascadeStep::RefuseIfAny { probe, message } => {
            assert_eq!(
                probe.sql,
                r#"SELECT "posts"."id", "posts"."title" FROM "posts" WHERE "posts"."owner_id" IN (SELECT "users"."id" FROM "users" WHERE "users"."id" = $1) LIMIT 1"#
            );
            assert_eq!(message, "cannot delete parent: child rows exist in posts");
        }
        _ => panic!("expected a probe"),
    }
    assert!(matches!(p.cascades[3], CascadeStep::Nothing));
    assert_eq!(p.delete.sql, r#"DELETE FROM "users" WHERE "users"."id" = $1"#);
}

#[test]
fn delete_plan_refuses_set_default() {
    let r = DeleteQuery::<User, _>::new(Dialect::Postgres)
        .all_rows()
        .cascade::<Post>("author_id", DeleteAction::SetDefault)
        .plan();
    match r {
        Err(e) => assert_eq!(message(e), "SET DEFAULT is not supported for cascaded deletes"),
        Ok(_) => panic!("expected a refusal"),
    }
}

#[test]
fn cascade_rule_of_model() {
    let rule = DeleteCascade::<Post>::new("author_id", DeleteAction::Cascade).rule();
    assert_eq!(
        rule,
        CascadeRule {
            child_table: "posts",
            child_columns: &["id", "title"],
            child_fk_col: "author_id",
            action: DeleteAction::Cascade,
        }
    );
}

#[test]
fn row_shape_errors() {
    let rows = vec![
        vec![("a", Value::I64(1)), ("b", Value::I64(2))],
        vec![("a", Value::I64(3))],
    ];
    assert_eq!(
        message(validate_row_shape(&rows).unwrap_err()),
        "insert row 1 has 1 columns, expected 2 from row 0"
    );
    let rows = vec![
        vec![("a", Value::I64(1)), ("b", Value::I64(2))],
        vec![("a", Value::I64(3)), ("b", Value::I64(4))],
        vec![("a", Value::I64(3)), ("c", Value::I64(4))],
    ];
    assert_eq!(
        message(validate_row_shape(&rows).unwrap_err()),
        "insert row 2 column 1 differs from row 0: expected 'b', found 'c'"
    );
    assert!(validate_row_shape(&rows[..2]).is_ok());
    assert!(validate_row_shape(&[]).is_ok());
}

#[test]
fn insert_many_chunks_by_parameter_limit() {
    let q = InsertManyQuery::<User>::new(Dialect::Postgres)
        .row(vec![("email", Value::Str("a".into())), ("age", Value::I32(1))])
        .rows(vec![
            vec![("email", Value::Str("b".into())), ("age", Value::I32(2))],
            vec![("email", Value::Str("c".into())), ("age", Value::I32(3))],
        ]);
    let stmts = q.statements(5).unwrap();
    assert_eq!(stmts.len(), 2);
    assert_eq!(
        stmts[0].sql,
        r#"INSERT INTO "users" ("email", "age") VALUES ($1, $2), ($3, $4) RETURNING *"#
    );
    assert_eq!(
        stmts[1].sql,
        r#"INSERT INTO "users" ("email", "age") VALUES ($1, $2) RETURNING *"#
    );
    assert_eq!(stmts[1].binds, vec![Value::Str("c".into()), Value::I32(3)]);
    let one = q.statements(1).unwrap();
    assert_eq!(one.len(), 3);
}

#[test]
fn insert_many_returns_model_columns() {
    let q = InsertManyQuery::<Post>::new(Dialect::Postgres).row(vec![("title", Value::Str("t".into()))]);
    let stmts = q.statements(100).unwrap();
    assert_eq!(
        stmts[0].sql,
        r#"INSERT INTO "posts" ("title") VALUES ($1) RETURNING "id", "title""#
    );
}

#[test]
fn insert_many_refusals() {
    let q = InsertManyQuery::<User>::new(Dialect::Postgres);
    assert!(q.statements(100).unwrap().is_empty());
    let q = InsertManyQuery::<User>::new(Dialect::Postgres)
        .row(vec![("email", Value::Str("a".into()))])
        .row(Vec::new());
    assert_eq!(message(q.statements(100).unwrap_err()), "insert row has no columns");
    let q = InsertManyQuery::<User>::new(Dialect::Postgres)
        .row(vec![("email", Value::Str("a".into()))])
        .row(vec![("age", Value::I32(1))]);
    assert_eq!(
        message(q.statements(100).unwrap_err()),
        "insert row 1 column 0 differs from row 0: expected 'email', found 'age'"
    );
}

#[test]
fn insert_returning_sql() {
    let q = InsertQuery::<User>::new(Dialect::Postgres).set(email(), "a@b.c");
    assert_eq!(
        q.to_sql_returning().sql,
        r#"INSERT INTO "users" ("email") VALUES ($1) RETURNING *"#
    );
    let q = InsertQuery::<Post>::new(Dialect::MySql).set(post_id(), 1_i64);
    assert_eq!(q.to_sql_returning().sql, "INSERT INTO `posts` (`id`) VALUES (?)");
}

#[test]
fn inserted_row_takes_last() {
    assert_eq!(inserted_row(vec![1, 2]).unwrap(), 2);
    assert_eq!(
        message(inserted_row(Vec::<i32>::new()).unwrap_err()),
        "INSERT RETURNING returned no row"
    );
}

#[test]
fn nested_children_get_parent_key() {
    let rows = vec![
        vec![("title", Value::Str("a".into()))],
        vec![("title", Value::Str("b".into()))],
    ];
    let stmts = nested_child_statements::<User>(Dialect::Postgres, "posts", "author_id", rows, &Value::I64(9), 3)
        .unwrap();
    assert_eq!(stmts.len(), 2);
    assert_eq!(
        stmts[0].sql,
        r#"INSERT INTO "posts" ("title", "author_id") VALUES ($1, $2) RETURNING *"#
    );
    assert_eq!(stmts[1].binds, vec![Value::Str("b".into()), Value::I64(9)]);
    let none = nested_child_statements::<User>(Dialect::Postgres, "posts", "author_id", Vec::new(), &Value::I64(9), 3)
        .unwrap();
    assert!(none.is_empty());
    let bad = nested_child_statements::<User>(
        Dialect::Postgres,
        "posts",
        "author_id",
        vec![Vec::new()],
        &Value::I64(9),
        3,
    );
    assert_eq!(message(bad.unwrap_err()), "insert row has no columns");
}

#[test]
fn children_reload_query() {
    assert_eq!(
        children_reload_sql(Dialect::MySql, "posts", "author_id"),
        "SELECT * FROM `posts` WHERE `author_id` = ?"
    );
    assert_eq!(
        children_reload_sql(Dialect::Postgres, "posts", "author_id"),
        r#"SELECT * FROM "posts" WHERE "author_id" = $1"#
    );
}
