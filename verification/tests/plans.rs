use ruprizzle::col::Column;
use ruprizzle::dialect::Dialect;
use ruprizzle::filter::FilterNode;
use ruprizzle::hierarchy::HierarchyNode;
use ruprizzle::loader::{
    chunk_ranges, chunk_size, contains_value, count_links, dedup, first_children, full_table_fast_path,
    group_children, group_through, is_unfiltered, nested_full_table, positions,
};
use ruprizzle::m2m::{M2mAction, M2mWrite};
use ruprizzle::model::Model;
use ruprizzle::nested::{next_nested_action, NestedAction, NestedConnectOrCreate, NestedCreate, NestedRelWrite, NestedStep, RelNestedOp};
use ruprizzle::pool::{
    backend_for_url, select_replica_index, url_query_names, url_scheme, uses_counter, Backend, LoadBalancing,
    PoolConfig, PoolStats,
};
use ruprizzle::rel::{RelAction, RelWrite};
use ruprizzle::value::Value;

struct User;
impl Model for User {
    const TABLE: &'static str = "users";
    const PRIMARY_KEY: &'static str = "id";
    const COLUMNS: &'static [&'static str] = &[];
    const DELETED_AT_COLUMN: Option<&'static str> = None;
}

struct Post;
impl Model for Post {
    const TABLE: &'static str = "posts";
    const PRIMARY_KEY: &'static str = "id";
    const COLUMNS: &'static [&'static str] = &["id", "title"];
    const DELETED_AT_COLUMN: Option<&'static str> = None;
}

struct Tag;
impl Model for Tag {
    const TABLE: &'static str = "tags";
    const PRIMARY_KEY: &'static str = "id";
    const COLUMNS: &'static [&'static str] = &["id", "name"];
    const DELETED_AT_COLUMN: Option<&'static str> = None;
}

struct PostTag;
impl Model for PostTag {
    const TABLE: &'static str = "post_tags";
    const PRIMARY_KEY: &'static str = "id";
    const COLUMNS: &'static [&'static str] = &[];
    const DELETED_AT_COLUMN: Option<&'static str> = None;
}

fn title() -> Column<Post, String> {
    Column::new("posts", "title")
}

fn execute_sql(step: &NestedStep) -> (&str, &Vec<Value>) {
    match step {
        NestedStep::Execute(c) => (c.sql.as_str(), &c.binds),
        _ => panic!("expected a plain statement"),
    }
}

#[test]
fn nested_write_plan() {
    let w: NestedRelWrite<User, Post> = NestedRelWrite::new(
        "posts",
        "author_id",
        "id",
        vec![
            RelNestedOp::Create(vec![NestedCreate::new().set(title(), "hello")]),
            RelNestedOp::Connect(vec![Value::I64(5)]),
            RelNestedOp::Connect(Vec::new()),
            RelNestedOp::Disconnect(vec![Value::I64(1), Value::I64(2)]),
            RelNestedOp::Replace(Vec::new()),
            RelNestedOp::Delete(vec![Value::I64(3)]),
        ],
    );
    let steps = w.plan(Dialect::Postgres, &Value::I64(9));
    assert_eq!(steps.len(), 5);
    let (sql, binds) = execute_sql(&steps[0]);
    assert_eq!(sql, r#"INSERT INTO "posts" ("title", "author_id") VALUES ($1, $2)"#);
    assert_eq!(binds, &vec![Value::Str("hello".into()), Value::I64(9)]);
    let (sql, binds) = execute_sql(&steps[1]);
    assert_eq!(sql, r#"UPDATE "posts" SET "author_id" = $1 WHERE "posts"."id" IN ($2)"#);
    assert_eq!(binds, &vec![Value::I64(9), Value::I64(5)]);
    let (sql, binds) = execute_sql(&steps[2]);
    assert_eq!(
        sql,
        r#"UPDATE "posts" SET "author_id" = $1 WHERE ("posts"."id" IN ($2, $3) AND "posts"."author_id" = $4)"#
    );
    assert_eq!(binds, &vec![Value::Null, Value::I64(1), Value::I64(2), Value::I64(9)]);
    let (sql, binds) = execute_sql(&steps[3]);
    assert_eq!(sql, r#"UPDATE "posts" SET "author_id" = $1 WHERE "posts"."author_id" = $2"#);
    assert_eq!(binds, &vec![Value::Null, Value::I64(9)]);
    let (sql, _) = execute_sql(&steps[4]);
    assert_eq!(
        sql,
        r#"DELETE FROM "posts" WHERE ("posts"."id" IN ($1) AND "posts"."author_id" = $2)"#
    );
}

#[test]
fn nested_connect_or_create_plan() {
    let item = NestedConnectOrCreate::new(title().eq("x"), NestedCreate::new().set(title(), "x"));
    let w: NestedRelWrite<User, Post> =
        NestedRelWrite::new("posts", "author_id", "id", vec![RelNestedOp::ConnectOrCreate(vec![item])]);
    let steps = w.plan(Dialect::Sqlite, &Value::I64(2));
    assert_eq!(steps.len(), 1);
    match &steps[0] {
        NestedStep::ConnectOrCreate { probe, found, missing } => {
            assert_eq!(probe.sql, "SELECT `posts`.`id` FROM `posts` WHERE `posts`.`title` = ? LIMIT 1");
            assert_eq!(found.sql, "UPDATE `posts` SET `author_id` = ? WHERE `posts`.`title` = ?");
            assert_eq!(found.binds, vec![Value::I64(2), Value::Str("x".into())]);
            assert_eq!(missing.sql, "INSERT INTO `posts` (`title`, `author_id`) VALUES (?, ?)");
        }
        _ => panic!("expected a connect-or-create step"),
    }
}

#[test]
fn rel_write_statements() {
    let w: RelWrite<User, Post> = RelWrite::new(RelAction::Replace, "author_id", "id", vec![Value::I64(4)]);
    let s = w.statements(Dialect::Postgres, &Value::I64(1));
    assert_eq!(s.len(), 2);
    assert_eq!(s[0].sql, r#"UPDATE "posts" SET "author_id" = $1 WHERE "posts"."author_id" = $2"#);
    assert_eq!(s[1].sql, r#"UPDATE "posts" SET "author_id" = $1 WHERE "posts"."id" IN ($2)"#);
    assert_eq!(s[1].binds, vec![Value::I64(1), Value::I64(4)]);
    let w: RelWrite<User, Post> = RelWrite::new(RelAction::Disconnect, "author_id", "id", vec![Value::I64(4)]);
    let s = w.statements(Dialect::Postgres, &Value::I64(1));
    assert_eq!(s.len(), 1);
    assert_eq!(
        s[0].sql,
        r#"UPDATE "posts" SET "author_id" = $1 WHERE ("posts"."id" IN ($2) AND "posts"."author_id" = $3)"#
    );
}

fn tags(action: M2mAction, ids: Vec<Value>) -> M2mWrite<Post, Tag, PostTag> {
    M2mWrite::new(action, "post_tags", "post_id", "tag_id", "tags", "id", ids)
}

#[test]
fn m2m_statements() {
    let w = tags(M2mAction::Replace, vec![Value::I64(7), Value::I64(8)]);
    let s = w.statements(Dialect::Postgres, &Value::I64(1));
    assert_eq!(s.len(), 2);
    assert_eq!(s[0].sql, r#"DELETE FROM "post_tags" WHERE "post_tags"."post_id" = $1"#);
    assert_eq!(
        s[1].sql,
        r#"INSERT INTO "post_tags" ("post_id", "tag_id") VALUES ($1, $2), ($3, $4)"#
    );
    assert_eq!(
        s[1].binds,
        vec![Value::I64(1), Value::I64(7), Value::I64(1), Value::I64(8)]
    );
    let w = tags(M2mAction::Detach, vec![Value::I64(7)]);
    let s = w.statements(Dialect::Postgres, &Value::I64(1));
    assert_eq!(
        s[0].sql,
        r#"DELETE FROM "post_tags" WHERE ("post_tags"."post_id" = $1 AND "post_tags"."tag_id" IN ($2))"#
    );
    let w = tags(M2mAction::Attach, Vec::new());
    assert!(w.statements(Dialect::Postgres, &Value::I64(1)).is_empty());
    assert!(w.attach_statement(Dialect::Postgres, &Value::I64(1)).is_none());
}

#[test]
fn m2m_reload_rule() {
    let w = tags(M2mAction::Attach, vec![Value::I64(7)]);
    assert!(w.reloads_targets(1));
    assert!(!w.reloads_targets(0));
    let w = tags(M2mAction::Detach, vec![Value::I64(7)]);
    assert!(!w.reloads_targets(3));
    let w = tags(M2mAction::Attach, vec![Value::I64(7)]);
    assert_eq!(
        w.load_targets_statement(Dialect::Postgres).sql,
        r#"SELECT "tags"."id", "tags"."name" FROM "tags" WHERE "tags"."id" IN ($1)"#
    );
}

#[test]
fn loader_grouping() {
    let parents = vec![Value::I64(1), Value::I64(2), Value::I64(3)];
    let children = vec![Value::I64(2), Value::I64(1), Value::I64(2)];
    assert_eq!(group_children(&parents, &children), vec![vec![1], vec![0, 2], vec![]]);
    assert_eq!(first_children(&parents, &children), vec![Some(1), Some(0), None]);
    assert_eq!(positions(&children, &Value::I64(2)), vec![0, 2]);
    assert!(contains_value(&children, &Value::I64(1)));
    assert!(!contains_value(&children, &Value::I64(3)));
    assert_eq!(dedup(&children), vec![Value::I64(2), Value::I64(1)]);
}

#[test]
fn loader_many_to_many_grouping() {
    let parents = vec![Value::I64(1), Value::I64(2)];
    let owners = vec![Value::I64(1), Value::I64(1), Value::I64(2)];
    let targets = vec![Value::I64(10), Value::I64(20), Value::I64(10)];
    let children = vec![Value::I64(20), Value::I64(10)];
    assert_eq!(
        group_through(&parents, &owners, &targets, &children, None),
        vec![vec![0, 1], vec![1]]
    );
    assert_eq!(
        group_through(&parents, &owners, &targets, &children, Some(1)),
        vec![vec![0], vec![1]]
    );
    assert_eq!(count_links(&owners, &targets, &Value::I64(1), &Value::I64(10)), 1);
}

#[test]
fn loader_chunking() {
    assert_eq!(chunk_size(65535), 65525);
    assert_eq!(chunk_size(5), 1);
    assert_eq!(chunk_ranges(5, 2), vec![(0, 2), (2, 4), (4, 5)]);
    assert!(chunk_ranges(0, 3).is_empty());
}

#[test]
fn loader_fast_path_rules() {
    let none = FilterNode::And(Vec::new());
    assert!(is_unfiltered(&none));
    assert!(full_table_fast_path(true, 100, &none, 0, None));
    assert!(!full_table_fast_path(true, 0, &none, 0, None));
    assert!(!full_table_fast_path(true, 100, &none, 1, None));
    assert!(!full_table_fast_path(false, 100, &none, 0, None));
    assert!(nested_full_table(true, &none, 0, None));
    assert!(!nested_full_table(true, &none, 0, Some(3)));
}

#[test]
fn pool_url_rules() {
    assert_eq!(url_scheme("postgres://u@h/db"), "postgres");
    assert_eq!(url_scheme("nocolon"), "nocolon");
    assert_eq!(backend_for_url("postgresql://h/db"), Backend::Postgres);
    assert_eq!(backend_for_url("mariadb://h/db"), Backend::MySql);
    assert_eq!(backend_for_url("sqlite://file.db"), Backend::Sqlite);
    assert_eq!(backend_for_url("mssql://h/db"), Backend::Any);
    assert!(url_query_names("sqlite://x.db?mode=rwc&busy=1", "mode="));
    assert!(!url_query_names("sqlite://x.db", "mode="));
}

#[test]
fn pool_defaults_and_stats() {
    let c = PoolConfig::default();
    assert_eq!(c.max_connections, 10);
    assert_eq!(c.acquire_timeout, std::time::Duration::from_secs(30));
    assert_eq!(c.idle_timeout, Some(std::time::Duration::from_secs(600)));
    assert_eq!(c.full_table_include_limit, Some(100_000));
    let s = PoolStats::from_counts(10, 3, 2);
    assert_eq!((s.size, s.idle, s.in_use, s.waiters), (10, 3, 7, 2));
    assert_eq!(PoolStats::from_counts(2, 5, 0).in_use, 0);
    assert_eq!(LoadBalancing::default(), LoadBalancing::RoundRobin);
}

#[test]
fn replica_selection() {
    let healthy = [true, false, true];
    let active = [4, 0, 1];
    assert_eq!(select_replica_index(LoadBalancing::RoundRobin, &healthy, &active, 0), Some(0));
    assert_eq!(select_replica_index(LoadBalancing::RoundRobin, &healthy, &active, 1), Some(2));
    assert_eq!(select_replica_index(LoadBalancing::LeastConnections, &healthy, &active, 9), Some(2));
    assert_eq!(select_replica_index(LoadBalancing::RoundRobin, &[false, false], &[0, 0], 3), None);
    let r = select_replica_index(LoadBalancing::Random, &healthy, &active, 5);
    assert!(r == Some(0) || r == Some(2));
    assert!(uses_counter(LoadBalancing::Random));
    assert!(!uses_counter(LoadBalancing::LeastConnections));
}

#[test]
fn hierarchy_node_counts() {
    let mut root = HierarchyNode::new("a", 0);
    let mut b = HierarchyNode::new("b", 1);
    b.children.push(HierarchyNode::new("c", 2));
    root.children.push(b);
    root.children.push(HierarchyNode::new("d", 1));
    assert_eq!(root.count(), 4);
    assert_eq!(root.max_subtree_depth(), 2);
    let flat: Vec<&str> = root.flatten().into_iter().copied().collect();
    assert_eq!(flat, vec!["a", "b", "c", "d"]);
}

#[test]
fn hierarchy_from_flat() {
    let descendants = vec![
        ("b", Value::I64(2), Some(Value::I64(1))),
        ("c", Value::I64(3), Some(Value::I64(2))),
        ("d", Value::I64(4), Some(Value::I64(1))),
        ("orphan", Value::I64(5), Some(Value::I64(99))),
        ("rootless", Value::I64(6), None),
    ];
    let tree = HierarchyNode::from_flat("a", Value::I64(1), descendants);
    assert_eq!(tree.item, "a");
    assert_eq!(tree.depth, 0);
    assert_eq!(tree.count(), 4);
    assert_eq!(tree.children.len(), 2);
    assert_eq!(tree.children[0].item, "b");
    assert_eq!(tree.children[0].children[0].item, "c");
    assert_eq!(tree.children[0].children[0].depth, 2);
    assert_eq!(tree.children[1].item, "d");
    let flat: Vec<&str> = tree.flatten().into_iter().copied().collect();
    assert_eq!(flat, vec!["a", "b", "c", "d"]);
}

#[test]
fn hierarchy_from_flat_takes_each_item_once() {
    let descendants = vec![
        ("x", Value::I64(1), Some(Value::I64(1))),
        ("y", Value::I64(2), Some(Value::I64(1))),
    ];
    let tree = HierarchyNode::from_flat("root", Value::I64(1), descendants);
    assert_eq!(tree.count(), 3);
    assert!(tree.children[0].children.is_empty());
}

#[test]
fn manifest_entry_names_dialect() {
    let e = ruprizzle::manifest::QueryEntry::new("SELECT 1".into(), Some("a.rs"), Some(3), Dialect::Sqlite);
    assert_eq!(e.sql, "SELECT 1");
    assert_eq!(e.dialect, "sqlite");
    assert_eq!(e.source, Some("a.rs"));
    assert_eq!(e.line, Some(3));
}

struct Comment;
impl Model for Comment {
    const TABLE: &'static str = "comments";
    const PRIMARY_KEY: &'static str = "id";
    const COLUMNS: &'static [&'static str] = &["id", "body"];
    const DELETED_AT_COLUMN: Option<&'static str> = Some("deleted_at");
}

#[test]
fn child_fetch_in_chunks() {
    let keys = vec![Value::I64(1), Value::I64(2), Value::I64(1), Value::I64(3)];
    let none = FilterNode::And(Vec::new());
    let s = ruprizzle::loader::child_fetch_statements::<Post>(
        Dialect::Postgres,
        "author_id",
        &none,
        &[],
        None,
        &keys,
        65535,
        true,
    );
    assert_eq!(s.len(), 1);
    assert_eq!(
        s[0].sql,
        r#"SELECT "posts"."id", "posts"."title" FROM "posts" WHERE "posts"."author_id" IN ($1, $2, $3)"#
    );
    assert_eq!(s[0].binds, vec![Value::I64(1), Value::I64(2), Value::I64(3)]);
    let s = ruprizzle::loader::child_fetch_statements::<Post>(
        Dialect::Postgres,
        "author_id",
        &title().eq("x").node,
        &[],
        None,
        &keys,
        12,
        true,
    );
    assert_eq!(s.len(), 2);
    assert_eq!(
        s[0].sql,
        r#"SELECT "posts"."id", "posts"."title" FROM "posts" WHERE ("posts"."author_id" IN ($1, $2) AND "posts"."title" = $3)"#
    );
    assert_eq!(s[1].binds, vec![Value::I64(3), Value::Str("x".into())]);
    let empty: Vec<Value> = Vec::new();
    assert!(ruprizzle::loader::child_fetch_statements::<Post>(
        Dialect::Postgres, "author_id", &none, &[], None, &empty, 100, true
    )
    .is_empty());
}

#[test]
fn child_fetch_respects_soft_delete() {
    let none = FilterNode::And(Vec::new());
    let s = ruprizzle::loader::child_fetch_statements::<Comment>(
        Dialect::Sqlite,
        "post_id",
        &none,
        &[],
        None,
        &[Value::I64(5)],
        100,
        true,
    );
    assert_eq!(
        s[0].sql,
        "SELECT `comments`.`id`, `comments`.`body` FROM `comments` WHERE (`comments`.`post_id` IN (?) AND `comments`.`deleted_at` IS NULL)"
    );
}

#[test]
fn child_fetch_per_parent_limit() {
    let none = FilterNode::And(Vec::new());
    let keys = vec![Value::I64(1), Value::I64(2)];
    let s = ruprizzle::loader::child_fetch_statements::<Post>(
        Dialect::Postgres,
        "author_id",
        &none,
        &[],
        Some(2),
        &keys,
        100,
        true,
    );
    assert_eq!(s.len(), 1);
    assert_eq!(
        s[0].sql,
        r#"SELECT * FROM (SELECT "posts"."id", "posts"."title", ROW_NUMBER() OVER (PARTITION BY "posts"."author_id" ORDER BY "posts"."id" ASC) AS "__rz_rn" FROM "posts" WHERE "posts"."author_id" IN ($1, $2)) AS "__rz_partitioned" WHERE "__rz_rn" <= 2 ORDER BY "__rz_rn" ASC"#
    );
    let s = ruprizzle::loader::child_fetch_statements::<Post>(
        Dialect::Postgres,
        "author_id",
        &none,
        &[],
        Some(2),
        &keys,
        100,
        false,
    );
    assert_eq!(s.len(), 2);
    assert_eq!(
        s[1].sql,
        r#"SELECT "posts"."id", "posts"."title" FROM "posts" WHERE "posts"."author_id" = $1 LIMIT 2"#
    );
    assert_eq!(s[1].binds, vec![Value::I64(2)]);
}

#[test]
fn join_rows_read_in_owner_order() {
    let keys = vec![Value::I64(4), Value::I64(2), Value::I64(4)];
    let s = ruprizzle::loader::join_row_statements::<PostTag>(Dialect::Postgres, "post_id", "tag_id", &keys, 65535);
    assert_eq!(s.len(), 1);
    assert_eq!(
        s[0].sql,
        r#"SELECT * FROM "post_tags" WHERE "post_tags"."post_id" IN ($1, $2) ORDER BY "post_tags"."post_id" ASC, "post_tags"."tag_id" ASC"#
    );
    assert_eq!(s[0].binds, vec![Value::I64(4), Value::I64(2)]);
    let s = ruprizzle::loader::join_row_statements::<PostTag>(Dialect::Postgres, "post_id", "tag_id", &keys, 11);
    assert_eq!(s.len(), 2);
    assert_eq!(s[1].binds, vec![Value::I64(2)]);
    let empty: Vec<Value> = Vec::new();
    assert!(ruprizzle::loader::join_row_statements::<PostTag>(Dialect::Postgres, "post_id", "tag_id", &empty, 100)
        .is_empty());
}

#[test]
fn router_round_robin_walks_healthy_replicas() {
    let mut r = ruprizzle::pool::ReplicaRouter::new(LoadBalancing::RoundRobin);
    let healthy = [true, false, true, true];
    let active = [0usize, 0, 0, 0];
    let picks: Vec<Option<usize>> = (0..5).map(|_| r.select_replica(&healthy, &active)).collect();
    assert_eq!(picks, vec![Some(0), Some(2), Some(3), Some(0), Some(2)]);
    assert_eq!(r.counter, 5);
    assert_eq!(r.select_replica(&[false, false, false, false], &active), None);
    assert_eq!(r.counter, 5);
    let mut lc = ruprizzle::pool::ReplicaRouter::new(LoadBalancing::LeastConnections);
    assert_eq!(lc.select_replica(&healthy, &[0, 0, 5, 1]), Some(0));
    assert_eq!(lc.counter, 0);
}

#[test]
fn nested_runner_stops_at_first_failure() {
    assert_eq!(next_nested_action(3, 0, false), NestedAction::Run(0));
    assert_eq!(next_nested_action(3, 2, false), NestedAction::Run(2));
    assert_eq!(next_nested_action(3, 2, true), NestedAction::Stop);
    assert_eq!(next_nested_action(3, 3, false), NestedAction::Done);
    assert_eq!(next_nested_action(0, 0, false), NestedAction::Done);
}
