use ruprizzle::col::Column;
use ruprizzle::dialect::Dialect;
use ruprizzle::eager::{IncludeList, IncludeMany, IncludeOne};
use ruprizzle::model::Model;
use ruprizzle::value::Value;

struct Author;
impl Model for Author {
    const TABLE: &'static str = "authors";
    const PRIMARY_KEY: &'static str = "id";
    const COLUMNS: &'static [&'static str] = &["id", "name"];
    const DELETED_AT_COLUMN: Option<&'static str> = None;
}

struct Book;
impl Model for Book {
    const TABLE: &'static str = "books";
    const PRIMARY_KEY: &'static str = "id";
    const COLUMNS: &'static [&'static str] = &["id", "author_id", "title"];
    const DELETED_AT_COLUMN: Option<&'static str> = None;
}

struct Label;
impl Model for Label {
    const TABLE: &'static str = "labels";
    const PRIMARY_KEY: &'static str = "id";
    const COLUMNS: &'static [&'static str] = &["id", "name"];
    const DELETED_AT_COLUMN: Option<&'static str> = None;
}

struct BookLabel;
impl Model for BookLabel {
    const TABLE: &'static str = "book_labels";
    const PRIMARY_KEY: &'static str = "id";
    const COLUMNS: &'static [&'static str] = &["book_id", "label_id"];
    const DELETED_AT_COLUMN: Option<&'static str> = None;
}

fn author_id() -> Column<Book, i64> {
    Column::new("books", "author_id")
}

fn title() -> Column<Book, String> {
    Column::new("books", "title")
}

#[test]
fn list_relation_plans_filtered_ordered_windows() {
    let rel: IncludeList<Author, Book> =
        IncludeList::new(author_id()).filter(title().eq("x")).order_by(title().asc()).take(2);
    assert_eq!(rel.child_key, "author_id");
    assert_eq!(rel.limit, Some(2));
    let keys = vec![Value::I64(1), Value::I64(1), Value::I64(2)];
    let s = rel.statements(Dialect::Postgres, &keys, 65535, true);
    assert_eq!(s.len(), 1);
    assert_eq!(s[0].binds, vec![Value::Str("x".into()), Value::I64(1), Value::I64(2)]);
    assert!(s[0].sql.contains("ROW_NUMBER() OVER (PARTITION BY"));
    let per_key = rel.statements(Dialect::Postgres, &keys, 65535, false);
    assert_eq!(per_key.len(), 2);
    assert!(!rel.reads_whole_table(true, 100));
    assert!(!rel.children_full_table(true));
}

#[test]
fn list_relation_groups_children_by_key() {
    let rel: IncludeList<Author, Book> = IncludeList::new(author_id());
    assert!(rel.reads_whole_table(true, 100));
    assert!(!rel.reads_whole_table(true, 0));
    assert!(rel.children_full_table(true));
    let parents = vec![Value::I64(1), Value::I64(2), Value::I64(1)];
    let children = vec![Value::I64(2), Value::I64(1), Value::I64(1)];
    let groups = rel.attach(&parents, &children);
    assert_eq!(groups, vec![vec![1, 2], vec![0], vec![1, 2]]);
}

#[test]
fn one_relation_takes_first_child() {
    let rel: IncludeOne<Book, Author> = IncludeOne::new(Column::<Author, i64>::new("authors", "id"));
    let s = rel.statements(Dialect::Postgres, &[Value::I64(7), Value::I64(7)], 65535, true);
    assert_eq!(
        s[0].sql,
        r#"SELECT "authors"."id", "authors"."name" FROM "authors" WHERE "authors"."id" IN ($1)"#
    );
    let firsts = rel.attach(&[Value::I64(7), Value::I64(8)], &[Value::I64(9), Value::I64(7), Value::I64(7)]);
    assert_eq!(firsts, vec![Some(1), None]);
}

#[test]
fn many_relation_reads_join_rows_then_targets() {
    let rel: IncludeMany<Book, Label, BookLabel> = IncludeMany::new(
        Column::<BookLabel, i64>::new("book_labels", "book_id"),
        Column::<BookLabel, i64>::new("book_labels", "label_id"),
        Column::<Label, i64>::new("labels", "id"),
    )
    .take(1);
    let joins = rel.join_statements(Dialect::Postgres, &[Value::I64(1), Value::I64(2)], 65535);
    assert_eq!(
        joins[0].sql,
        r#"SELECT "book_labels"."book_id", "book_labels"."label_id" FROM "book_labels" WHERE "book_labels"."book_id" IN ($1, $2) ORDER BY "book_labels"."book_id" ASC, "book_labels"."label_id" ASC"#
    );
    let targets = rel.target_statements(Dialect::Postgres, &[Value::I64(5), Value::I64(6), Value::I64(5)], 65535, true);
    assert_eq!(targets[0].binds, vec![Value::I64(5), Value::I64(6)]);
    let owners = vec![Value::I64(1), Value::I64(1), Value::I64(2)];
    let labels = vec![Value::I64(5), Value::I64(6), Value::I64(6)];
    let fetched = vec![Value::I64(6), Value::I64(5)];
    let groups = rel.attach(&[Value::I64(1), Value::I64(2), Value::I64(3)], &owners, &labels, &fetched);
    assert_eq!(groups, vec![vec![0], vec![0], vec![]]);
}
