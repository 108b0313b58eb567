//! Binding, optimizing and lowering.

use balik_db::catalog::metadata::Status;
use balik_db::catalog::schema::{Column, ColumnType, Schema};
use balik_db::catalog::tables::TableOptions;
use balik_db::disk::Disk;
use balik_db::error::Error;
use balik_db::execution::logical::binder::bind;
use balik_db::execution::logical::optimizer::{column_pushdown, optimize, top_k};
use balik_db::execution::logical::plan::LogicalPlan;
use balik_db::execution::logical::plan;
use balik_db::execution::physical::lower::lower;
use balik_db::parser::ast::{CompareOp, Expr, Literal};
use balik_db::parser::parse;
use balik_db::storage::column_store::ColumnStore;
use balik_db::storage::Storage;

fn seeded_store() -> ColumnStore {
    let ready = Status::Ready { format_version: 1, created: "unix:0".into() };
    let mut store = ColumnStore::open("/db", &ready, Disk::new(None)).unwrap();
    let column = |name: &str, ty: ColumnType, nullable: bool| Column {
        name: name.to_string(),
        ty,
        nullable,
    };
    let schema = Schema {
        columns: vec![
            column("id", ColumnType::Int, false),
            column("name", ColumnType::Text, true),
            column("age", ColumnType::Int, true),
        ],
    };
    store.create_table("users", schema, TableOptions::default()).unwrap();
    store
}

fn scan() -> LogicalPlan {
    LogicalPlan::Scan { table: "users".into(), columns: None }
}

fn compare(column: &str, op: CompareOp, n: i64) -> Expr {
    Expr::Compare {
        left: Box::new(Expr::Column(column.into())),
        op,
        right: Box::new(Expr::Literal(Literal::Int(n))),
    }
}

fn filter(predicate: Expr, input: LogicalPlan) -> LogicalPlan {
    LogicalPlan::Filter { predicate, input: Box::new(input) }
}

fn project(columns: &[&str], input: LogicalPlan) -> LogicalPlan {
    LogicalPlan::Projection {
        columns: columns.iter().map(|c| c.to_string()).collect(),
        input: Box::new(input),
    }
}

fn sort(column: &str, descending: bool, input: LogicalPlan) -> LogicalPlan {
    LogicalPlan::Sort { column: column.into(), descending, input: Box::new(input) }
}

fn limit(count: u64, input: LogicalPlan) -> LogicalPlan {
    LogicalPlan::Limit { count, input: Box::new(input) }
}

// ---- binding ----

fn plan_of(query: &str, store: &ColumnStore) -> Result<LogicalPlan, Error> {
    let stmt = parse(query).unwrap();
    bind(&stmt, store)
}

#[test]
fn create_table_builds_plan() {
    let store = seeded_store();
    let plan = plan_of("CREATE TABLE t (a INT, b TEXT)", &store).unwrap();
    assert_eq!(
        plan.to_string(),
        "CreateTable t [a INT, b TEXT]",
        "columns default to nullable"
    );
}

#[test]
fn create_table_rejects_duplicate_columns() {
    let store = seeded_store();
    let err = plan_of("CREATE TABLE t (a INT, a TEXT)", &store).unwrap_err();
    assert!(err.to_string().contains("duplicate column"), "{}", err.to_string());
}

#[test]
fn insert_builds_plan() {
    let store = seeded_store();
    let plan = plan_of("INSERT INTO users VALUES (1, 'Alice', 20)", &store).unwrap();
    assert_eq!(plan.to_string(), "Insert users [1, 'Alice', 20]");
}

#[test]
fn insert_allows_null_in_nullable_column() {
    let store = seeded_store();
    assert!(plan_of("INSERT INTO users VALUES (1, NULL, NULL)", &store).is_ok());
}

#[test]
fn insert_rejects_unknown_table() {
    let store = seeded_store();
    let err = plan_of("INSERT INTO ghosts VALUES (1)", &store).unwrap_err();
    assert!(err.to_string().contains("no such table"), "{}", err.to_string());
}

#[test]
fn insert_rejects_wrong_arity() {
    let store = seeded_store();
    let err = plan_of("INSERT INTO users VALUES (1, 'Alice')", &store).unwrap_err();
    assert!(
        err.to_string().contains("expects 3 value(s), got 2"),
        "{}",
        err.to_string()
    );
}

#[test]
fn insert_rejects_null_in_not_null_column() {
    let store = seeded_store();
    let err = plan_of("INSERT INTO users VALUES (NULL, 'Alice', 20)", &store).unwrap_err();
    assert!(
        err.to_string().contains("is NOT NULL but got NULL"),
        "{}",
        err.to_string()
    );
}

#[test]
fn insert_rejects_type_mismatch() {
    let store = seeded_store();
    let err = plan_of("INSERT INTO users VALUES ('x', 'Alice', 20)", &store).unwrap_err();
    assert!(err.to_string().contains("expects INT, got TEXT"), "{}", err.to_string());
}

#[test]
fn select_star_expands_to_all_columns() {
    let store = seeded_store();
    let plan = plan_of("SELECT * FROM users", &store).unwrap();
    assert_eq!(plan.to_string(), "Projection [id, name, age]\n  Scan users");
}

#[test]
fn select_rejects_unknown_table() {
    let store = seeded_store();
    let err = plan_of("SELECT * FROM ghosts", &store).unwrap_err();
    assert!(err.to_string().contains("no such table"), "{}", err.to_string());
}

#[test]
fn select_rejects_unknown_projection_column() {
    let store = seeded_store();
    let err = plan_of("SELECT nope FROM users", &store).unwrap_err();
    assert!(
        err.to_string()
            .contains("SELECT references unknown column 'nope'"),
        "{}",
        err.to_string()
    );
}

#[test]
fn select_rejects_unknown_where_column() {
    let store = seeded_store();
    let err = plan_of("SELECT id FROM users WHERE nope = 1", &store).unwrap_err();
    assert!(
        err.to_string()
            .contains("WHERE references unknown column 'nope'"),
        "{}",
        err.to_string()
    );
}

#[test]
fn select_rejects_unknown_order_by_column() {
    let store = seeded_store();
    let err = plan_of("SELECT id FROM users ORDER BY nope", &store).unwrap_err();
    assert!(
        err.to_string()
            .contains("ORDER BY references unknown column 'nope'"),
        "{}",
        err.to_string()
    );
}

// ---- top-K ----

#[test]
fn sort_then_limit_fuse_into_topk() {
    let plan = top_k::apply(limit(10, sort("name", false, project(&["id"], scan()))));
    assert_eq!(
        plan.to_string(),
        "TopK [name] 10\n  Projection [id]\n    Scan users"
    );
}

#[test]
fn topk_keeps_sort_direction() {
    let plan = top_k::apply(limit(5, sort("age", true, project(&["id"], scan()))));
    assert_eq!(
        plan.to_string(),
        "TopK [age DESC] 5\n  Projection [id]\n    Scan users"
    );
}

#[test]
fn sort_without_limit_is_left_alone() {
    let plan = top_k::apply(sort("name", false, project(&["id"], scan())));
    assert_eq!(
        plan.to_string(),
        "Sort [name]\n  Projection [id]\n    Scan users"
    );
}

#[test]
fn limit_without_sort_is_left_alone() {
    let plan = top_k::apply(limit(5, project(&["id"], scan())));
    assert_eq!(
        plan.to_string(),
        "Limit 5\n  Projection [id]\n    Scan users"
    );
}

// ---- column pushdown ----

fn optimized(query: &str, store: &ColumnStore) -> LogicalPlan {
    let stmt = parse(query).unwrap();
    column_pushdown::apply(plan(&stmt, store).unwrap())
}

#[test]
fn column_pushdown_scan_lists_projection_then_filter_and_sort_columns() {
    let store = seeded_store();
    let plan = optimized(
        "SELECT id, name FROM users WHERE age > 18 ORDER BY name",
        &store,
    );
    assert_eq!(
        plan.to_string(),
        "Projection [id, name]\n  Sort [name]\n    Filter [age > 18]\n      Scan users [id, name, age]"
    );
}

/// The order of the operators does not matter to the columns.
#[test]
fn scan_lists_projection_then_filter_and_sort_columns() {
    let predicate = compare("age", CompareOp::Gt, 18);
    let plan = column_pushdown::apply(sort(
        "name",
        false,
        project(&["id", "name"], filter(predicate, scan())),
    ));
    assert_eq!(
        plan.to_string(),
        "Sort [name]\n  Projection [id, name]\n    Filter [age > 18]\n      Scan users [id, name, age]"
    );
}

#[test]
fn column_pushdown_select_star_scan_lists_all_columns() {
    let store = seeded_store();
    let plan = optimized("SELECT * FROM users", &store);
    assert_eq!(
        plan.to_string(),
        "Projection [id, name, age]\n  Scan users [id, name, age]"
    );
}

#[test]
fn column_pushdown_duplicate_references_are_listed_once() {
    let store = seeded_store();
    let plan = optimized("SELECT id FROM users WHERE id > 1 ORDER BY id", &store);
    assert_eq!(
        plan.to_string(),
        "Projection [id]\n  Sort [id]\n    Filter [id > 1]\n      Scan users [id]"
    );
}

#[test]
fn duplicate_references_are_listed_once() {
    let predicate = compare("id", CompareOp::Gt, 1);
    let plan =
        column_pushdown::apply(sort("id", false, project(&["id"], filter(predicate, scan()))));
    assert_eq!(
        plan.to_string(),
        "Sort [id]\n  Projection [id]\n    Filter [id > 1]\n      Scan users [id]"
    );
}

#[test]
fn topk_ordering_column_is_pushed_onto_scan() {
    // The full pipeline fuses the Sort+Limit into a TopK before column
    // pushdown runs, so the ordering column must still reach the scan.
    let store = seeded_store();
    let stmt = parse("SELECT id FROM users ORDER BY name LIMIT 10").unwrap();
    let plan = optimize(plan(&stmt, &store).unwrap());
    assert_eq!(
        plan.to_string(),
        "Projection [id]\n  TopK [name] 10\n    Scan users [id, name]"
    );
}

#[test]
fn column_pushdown_create_table_passes_through_unchanged() {
    let store = seeded_store();
    let plan = optimized("CREATE TABLE t (a INT, b TEXT)", &store);
    assert_eq!(plan.to_string(), "CreateTable t [a INT, b TEXT]");
}

#[test]
fn column_pushdown_insert_passes_through_unchanged() {
    let store = seeded_store();
    let plan = optimized("INSERT INTO users VALUES (1, 'Alice', 20)", &store);
    assert_eq!(plan.to_string(), "Insert users [1, 'Alice', 20]");
}

// ---- lowering ----

/// Parse, bind against the seeded `users` table, optionally optimize, and
/// lower — returning the rendered physical plan.
fn lowered(sql: &str, optimize_it: bool) -> String {
    let store = seeded_store();
    let stmt = parse(sql).unwrap();
    let mut logical = plan(&stmt, &store).unwrap();
    if optimize_it {
        logical = optimize(logical);
    }
    lower(&logical).to_string()
}

#[test]
fn optimized_select_chain_lowers_to_topk_with_pushed_columns_and_prune() {
    let physical = lowered(
        "SELECT id, name FROM users WHERE age > 18 ORDER BY name LIMIT 10",
        true,
    );
    assert_eq!(
        physical,
        "ProjectionExec [id, name]\n  \
           TopKExec [name] 10\n    \
             FilterExec [age > 18]\n      \
               TableScanExec users [id, name, age] prune=[age > 18]"
    );
}

#[test]
fn unoptimized_select_chain_lowers_to_sort_and_limit_and_still_prunes() {
    // Without optimization there is no TopK fusion and no column pushdown,
    // but the filter predicate is still mined for pruning hints.
    let physical = lowered(
        "SELECT id, name FROM users WHERE age > 18 ORDER BY name LIMIT 10",
        false,
    );
    assert_eq!(
        physical,
        "ProjectionExec [id, name]\n  \
           LimitExec 10\n    \
             SortExec [name]\n      \
               FilterExec [age > 18]\n        \
                 TableScanExec users prune=[age > 18]"
    );
}

#[test]
fn select_star_lowers_to_projection_over_scan() {
    let physical = lowered("SELECT * FROM users", false);
    assert_eq!(
        physical,
        "ProjectionExec [id, name, age]\n  TableScanExec users"
    );
}

#[test]
fn create_table_lowers_to_create_table_exec() {
    let physical = lowered("CREATE TABLE t (a INT, b TEXT)", false);
    assert_eq!(physical, "CreateTableExec t [a INT, b TEXT]");
}

#[test]
fn insert_lowers_to_insert_exec() {
    let physical = lowered("INSERT INTO users VALUES (1, 'Alice', 20)", false);
    assert_eq!(physical, "InsertExec users [1, 'Alice', 20]");
}

#[test]
fn drop_table_lowers_to_drop_table_exec() {
    let physical = lowered("DROP TABLE users", false);
    assert_eq!(physical, "DropTableExec users");
}

// ---- more ----

/// The projection stands outermost, so that every column of the table is there
/// to filter and sort by.
#[test]
fn select_keeps_the_projection_outermost() {
    let store = seeded_store();
    let plan = plan_of("SELECT id FROM users WHERE age > 18 ORDER BY name LIMIT 10", &store);
    assert_eq!(
        plan.unwrap().to_string(),
        "Projection [id]\n  Limit 10\n    Sort [name]\n      Filter [age > 18]\n        Scan users"
    );
}

#[test]
fn delete_and_update_are_checked_against_the_table() {
    let store = seeded_store();
    let text = |q: &str| plan_of(q, &store).unwrap_err().to_string();
    assert_eq!(
        text("DELETE FROM users WHERE nope = 1"),
        "WHERE references unknown column 'nope' in table 'users'"
    );
    assert_eq!(
        text("UPDATE users SET nope = 1"),
        "SET references unknown column 'nope' in table 'users'"
    );
    assert_eq!(
        text("UPDATE users SET id = NULL"),
        "column 'id' of 'users' is NOT NULL but got NULL"
    );
    assert_eq!(
        text("UPDATE users SET age = 'x'"),
        "column 'age' of 'users' expects INT, got TEXT"
    );
    assert_eq!(text("DESCRIBE ghosts"), "no such table 'ghosts'");
    assert!(matches!(
        plan_of("UPDATE users SET age = 'x'", &store).unwrap_err(),
        Error::InvalidQuery(_)
    ));
}

/// Every limit over a sort is fused, wherever it stands; fusing twice is fusing
/// once, and the other nodes stay.
#[test]
fn fusing_twice_is_fusing_once() {
    let deep = || {
        limit(
            9,
            filter(
                compare("age", CompareOp::Gt, 1),
                limit(
                    5,
                    sort("age", true, limit(4, sort("id", false, sort("name", true, scan())))),
                ),
            ),
        )
    };
    let top = |column: &str, descending: bool, count: u64, input: LogicalPlan| LogicalPlan::TopK {
        column: column.into(),
        descending,
        count,
        input: Box::new(input),
    };
    let once = top_k::apply(deep());
    let inner = top("id", false, 4, sort("name", true, scan()));
    let expected = limit(9, filter(compare("age", CompareOp::Gt, 1), top("age", true, 5, inner)));
    assert_eq!(once, expected);
    assert_eq!(top_k::apply(once), expected);
    let twice = optimize(optimize(deep()));
    assert_eq!(twice, optimize(deep()));
}

/// A plan that is no query is not changed.
#[test]
fn other_plans_stay() {
    let store = seeded_store();
    for query in [
        "CREATE TABLE t (id INT)",
        "INSERT INTO users VALUES (1, 'a', 2)",
        "DROP TABLE users",
        "SHOW TABLES",
        "DELETE FROM users WHERE id = 1",
        "UPDATE users SET age = 3 WHERE id = 1",
    ] {
        let plan = || plan_of(query, &store).unwrap();
        assert_eq!(optimize(plan()), plan(), "{query}");
    }
}
