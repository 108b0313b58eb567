//! Running physical plans against a store.

use balik_db::catalog::metadata::Status;
use balik_db::catalog::schema::{Column, ColumnType, Schema};
use balik_db::catalog::tables::TableOptions;
use balik_db::disk::Disk;
use balik_db::execution::physical::executor::{
    execute, execute_stream, has_row_room, is_ready, output_columns,
};
use balik_db::execution::physical::plan::PhysicalPlan;
use balik_db::execution::physical::result::QueryResult;
use balik_db::parser::ast::{ColumnDef, CompareOp, DataType, Expr, Literal, LogicalOp};
use balik_db::storage::column_store::ColumnStore;
use balik_db::storage::{
    ColumnBatch, Record, ScanCompare, ScanPredicate, Storage, Value,
};

fn empty_store() -> ColumnStore {
    let ready = Status::Ready { format_version: 1, created: "unix:0".into() };
    ColumnStore::open("/db", &ready, Disk::new(None)).unwrap()
}

fn column(name: &str, ty: ColumnType, nullable: bool) -> Column {
    Column { name: name.to_string(), ty, nullable }
}

/// A store with the empty table `users(id INT NOT NULL, name TEXT, age INT)`.
fn seeded_store() -> ColumnStore {
    let mut store = empty_store();
    let schema = Schema {
        columns: vec![
            column("id", ColumnType::Int, false),
            column("name", ColumnType::Text, true),
            column("age", ColumnType::Int, true),
        ],
    };
    store.create_table("users", schema, TableOptions::default()).unwrap();
    store
}

fn scan(projection: Option<Vec<String>>) -> PhysicalPlan {
    PhysicalPlan::TableScanExec { table: "users".into(), projection, prune: Vec::new() }
}

/// Run a plan that `execute` accepts.
fn run(plan: &PhysicalPlan, store: &mut ColumnStore) -> Result<QueryResult, String> {
    assert!(is_ready(plan, store, store.next_table_id()));
    execute(plan, store).map_err(|e| e.to_string())
}

#[test]
fn output_columns_uses_projection_names() {
    let plan = PhysicalPlan::ProjectionExec {
        columns: vec!["id".into(), "name".into()],
        input: Box::new(scan(None)),
    };
    assert_eq!(output_columns(&plan).unwrap(), vec!["id", "name"]);
}

#[test]
fn output_columns_passes_through_limit_sort_filter() {
    let plan = PhysicalPlan::LimitExec {
        count: 5,
        input: Box::new(PhysicalPlan::SortExec {
            column: "name".into(),
            descending: false,
            input: Box::new(PhysicalPlan::ProjectionExec {
                columns: vec!["name".into()],
                input: Box::new(scan(None)),
            }),
        }),
    };
    assert_eq!(output_columns(&plan).unwrap(), vec!["name"]);
}

#[test]
fn output_columns_uses_resolved_scan_projection() {
    assert_eq!(output_columns(&scan(Some(vec!["id".into()]))).unwrap(), vec!["id"]);
}

#[test]
fn output_columns_rejects_ddl() {
    let plan = PhysicalPlan::InsertExec { table: "users".into(), values: vec![] };
    assert!(output_columns(&plan).is_err());
}

#[test]
fn create_table_exec_registers_table_in_catalog() {
    let mut store = seeded_store();
    let plan = PhysicalPlan::CreateTableExec {
        table: "products".into(),
        columns: vec![
            ColumnDef { name: "sku".into(), ty: DataType::Int, nullable: false },
            ColumnDef { name: "label".into(), ty: DataType::Text, nullable: true },
        ],
    };
    let result = run(&plan, &mut store).unwrap();
    assert!(matches!(result, QueryResult::Affected(_)));

    assert!(store.list_tables().unwrap().contains(&"products".to_string()));
    let desc = store.describe_table("products").unwrap();
    assert_eq!(desc.schema.columns.len(), 2);
    assert_eq!(desc.schema.columns[0].name, "sku");
    assert!(!desc.schema.columns[0].nullable);
    assert!(desc.schema.columns[1].nullable);
}

#[test]
fn create_table_exec_rejects_duplicate_table() {
    let mut store = seeded_store();
    let plan = PhysicalPlan::CreateTableExec {
        table: "users".into(),
        columns: vec![ColumnDef { name: "id".into(), ty: DataType::Int, nullable: false }],
    };
    assert!(run(&plan, &mut store).is_err());
}

fn insert(table: &str, values: Vec<Literal>) -> PhysicalPlan {
    PhysicalPlan::InsertExec { table: table.into(), values }
}

#[test]
fn insert_exec_appends_row_with_int_text_and_null() {
    let mut store = seeded_store();
    let row = insert(
        "users",
        vec![Literal::Int(1), Literal::Text("Alice".into()), Literal::Int(20)],
    );
    assert!(matches!(run(&row, &mut store).unwrap(), QueryResult::Affected(_)));
    // NULL into the nullable name/age columns.
    let nulls = insert("users", vec![Literal::Int(2), Literal::Null, Literal::Null]);
    run(&nulls, &mut store).unwrap();

    let handle = store.open_table("users").unwrap();
    let mut cursor = store.scan(&handle).unwrap();
    let mut rows: Vec<Vec<Value>> = vec![];
    while let Some(row) = cursor.next() {
        rows.push(row.unwrap().1.values);
    }
    rows.sort_by_key(|v| match v[0] {
        Value::Int(n) => n,
        _ => 0,
    });
    assert_eq!(
        rows,
        vec![
            vec![Value::Int(1), Value::Text("Alice".into()), Value::Int(20)],
            vec![Value::Int(2), Value::Null, Value::Null],
        ]
    );
}

#[test]
fn insert_exec_rejects_unknown_table() {
    let mut store = seeded_store();
    let plan = insert("ghosts", vec![Literal::Int(1)]);
    assert!(run(&plan, &mut store).is_err());
}

/// A `t(id INT NOT NULL, label TEXT)` store seeded with `rows` (each an id
/// and an optional label). `row_group_size` of `Some(n)` packs `n` rows per
/// group — use a small value to exercise whole-group skipping; `None` takes
/// the default.
fn store_t(rows: &[(i64, Option<&str>)], row_group_size: Option<u32>) -> ColumnStore {
    let mut store = empty_store();
    let schema = Schema {
        columns: vec![
            column("id", ColumnType::Int, false),
            column("label", ColumnType::Text, true),
        ],
    };
    store.create_table("t", schema, TableOptions { row_group_size }).unwrap();
    let handle = store.open_table("t").unwrap();
    for &(id, label) in rows {
        let label = label.map_or(Value::Null, |s| Value::Text(s.into()));
        store.insert(&handle, Record { values: vec![Value::Int(id), label] }).unwrap();
    }
    store
}

/// Ids packed two per row group (labels unused), for group-skipping tests.
fn store_with_groups(ids: &[i64]) -> ColumnStore {
    let rows: Vec<_> = ids.iter().map(|&i| (i, None)).collect();
    store_t(&rows, Some(2))
}

fn scan_t(projection: Option<Vec<String>>, prune: Vec<ScanPredicate>) -> PhysicalPlan {
    PhysicalPlan::TableScanExec { table: "t".into(), projection, prune }
}

fn run_scan(plan: &PhysicalPlan, store: &ColumnStore) -> Vec<ColumnBatch> {
    let mut stream = execute_stream(plan, store).unwrap();
    let mut batches = vec![];
    while let Some(batch) = stream.next() {
        batches.push(batch.unwrap());
    }
    batches
}

fn scanned_ids(batches: &[ColumnBatch]) -> Vec<i64> {
    batches
        .iter()
        .flat_map(|b| {
            b.columns[0].iter().map(|v| match v {
                Value::Int(n) => *n,
                other => panic!("expected int id, got {other:?}"),
            })
        })
        .collect()
}

fn ids() -> Option<Vec<String>> {
    Some(vec!["id".into()])
}

fn ids_and_labels() -> Option<Vec<String>> {
    Some(vec!["id".into(), "label".into()])
}

fn above(value: i64) -> Vec<ScanPredicate> {
    vec![ScanPredicate { column: "id".into(), op: ScanCompare::Gt, value }]
}

#[test]
fn table_scan_reads_every_row_in_schema_column_order() {
    let store = store_with_groups(&[1, 2, 3]);
    let batches = run_scan(&scan_t(None, vec![]), &store);
    assert_eq!(batches[0].names, vec!["id".to_string(), "label".to_string()]);
    assert_eq!(scanned_ids(&batches), vec![1, 2, 3]);
}

#[test]
fn table_scan_projection_decodes_only_requested_columns() {
    let store = store_with_groups(&[1, 2]);
    let batches = run_scan(&scan_t(ids(), vec![]), &store);
    assert_eq!(batches[0].names, vec!["id".to_string()]);
    assert_eq!(batches[0].columns.len(), 1);
}

#[test]
fn table_scan_skips_groups_proven_non_matching_but_does_not_filter_rows() {
    // ids 1..=6 → groups [1,2] [3,4] [5,6]. `id > 3` prunes [1,2] (max 2),
    // keeps [3,4] and [5,6]. The kept group [3,4] still yields id=3, which
    // does not satisfy the predicate: a scan skips groups, it does not
    // filter rows — that is FilterExec's job.
    let store = store_with_groups(&[1, 2, 3, 4, 5, 6]);
    let batches = run_scan(&scan_t(ids(), above(3)), &store);
    assert_eq!(scanned_ids(&batches), vec![3, 4, 5, 6]);
}

#[test]
fn table_scan_skips_all_groups_when_nothing_can_match() {
    let store = store_with_groups(&[1, 2, 3, 4]);
    let batches = run_scan(&scan_t(ids(), above(100)), &store);
    assert!(batches.is_empty());
}

fn filter(predicate: Expr, input: PhysicalPlan) -> PhysicalPlan {
    PhysicalPlan::FilterExec { predicate, input: Box::new(input) }
}

fn id_cmp(op: CompareOp, value: i64) -> Expr {
    Expr::Compare {
        left: Box::new(Expr::Column("id".into())),
        op,
        right: Box::new(Expr::Literal(Literal::Int(value))),
    }
}

#[test]
fn filter_exec_drops_rows_left_in_kept_groups() {
    // Scan prunes group [1,2] but keeps [3,4] (with non-matching id=3) and
    // [5,6]; the filter then removes id=3, so only 4,5,6 survive.
    let store = store_with_groups(&[1, 2, 3, 4, 5, 6]);
    let scan = scan_t(ids(), above(3));
    let batches = run_scan(&filter(id_cmp(CompareOp::Gt, 3), scan), &store);
    assert_eq!(scanned_ids(&batches), vec![4, 5, 6]);
}

#[test]
fn filter_exec_applies_and_of_two_bounds() {
    // id >= 2 AND id <= 4
    let store = store_with_groups(&[1, 2, 3, 4, 5, 6]);
    let pred = Expr::Logical {
        left: Box::new(id_cmp(CompareOp::GtEq, 2)),
        op: LogicalOp::And,
        right: Box::new(id_cmp(CompareOp::LtEq, 4)),
    };
    let batches = run_scan(&filter(pred, scan_t(ids(), vec![])), &store);
    assert_eq!(scanned_ids(&batches), vec![2, 3, 4]);
}

#[test]
fn filter_exec_eq_selects_the_exact_int() {
    let store = store_with_groups(&[1, 2, 3, 4, 5, 6]);
    let batches =
        run_scan(&filter(id_cmp(CompareOp::Eq, 3), scan_t(ids(), vec![])), &store);
    assert_eq!(scanned_ids(&batches), vec![3]);
}

#[test]
fn filter_exec_not_eq_excludes_the_value() {
    let store = store_with_groups(&[1, 2, 3, 4]);
    let batches =
        run_scan(&filter(id_cmp(CompareOp::NotEq, 3), scan_t(ids(), vec![])), &store);
    assert_eq!(scanned_ids(&batches), vec![1, 2, 4]);
}

/// Explicit — possibly NULL — labels for exercising text and NULL filtering.
fn store_with_labels(rows: &[(i64, Option<&str>)]) -> ColumnStore {
    store_t(rows, None)
}

fn label_cmp(op: CompareOp, value: &str) -> Expr {
    Expr::Compare {
        left: Box::new(Expr::Column("label".into())),
        op,
        right: Box::new(Expr::Literal(Literal::Text(value.into()))),
    }
}

#[test]
fn filter_exec_eq_on_text_column() {
    let store = store_with_labels(&[(1, Some("a")), (2, None), (3, Some("b"))]);
    let scan = scan_t(ids_and_labels(), vec![]);
    let batches = run_scan(&filter(label_cmp(CompareOp::Eq, "a"), scan), &store);
    assert_eq!(scanned_ids(&batches), vec![1]);
}

#[test]
fn filter_exec_not_eq_on_text_excludes_null_rows() {
    // `label != 'a'` keeps 'b' (id 3) but drops the NULL label (id 2):
    // a comparison against NULL is never true.
    let store = store_with_labels(&[(1, Some("a")), (2, None), (3, Some("b"))]);
    let scan = scan_t(ids_and_labels(), vec![]);
    let batches = run_scan(&filter(label_cmp(CompareOp::NotEq, "a"), scan), &store);
    assert_eq!(scanned_ids(&batches), vec![3]);
}

#[test]
fn filter_exec_eq_on_text_never_matches_null() {
    let store = store_with_labels(&[(1, None), (2, Some("x"))]);
    let scan = scan_t(ids_and_labels(), vec![]);
    let batches = run_scan(&filter(label_cmp(CompareOp::Eq, "x"), scan), &store);
    assert_eq!(scanned_ids(&batches), vec![2]);
}

fn project(columns: Vec<&str>, input: PhysicalPlan) -> PhysicalPlan {
    PhysicalPlan::ProjectionExec {
        columns: columns.into_iter().map(Into::into).collect(),
        input: Box::new(input),
    }
}

#[test]
fn projection_exec_selects_and_reorders_columns() {
    let store = store_with_labels(&[(1, Some("a")), (2, Some("b"))]);
    let scan = scan_t(ids_and_labels(), vec![]);
    let batches = run_scan(&project(vec!["label", "id"], scan), &store);
    assert_eq!(batches[0].names, vec!["label".to_string(), "id".to_string()]);
    assert_eq!(
        batches[0].columns[0],
        vec![Value::Text("a".into()), Value::Text("b".into())]
    );
    assert_eq!(batches[0].columns[1], vec![Value::Int(1), Value::Int(2)]);
}

#[test]
fn projection_exec_selects_a_subset() {
    let store = store_with_labels(&[(1, Some("a")), (2, Some("b"))]);
    let scan = scan_t(ids_and_labels(), vec![]);
    let batches = run_scan(&project(vec!["id"], scan), &store);
    assert_eq!(batches[0].names, vec!["id".to_string()]);
    assert_eq!(batches[0].columns.len(), 1);
}

#[test]
fn projection_exec_runs_after_filter() {
    let store = store_with_labels(&[(1, Some("a")), (2, Some("b")), (3, Some("c"))]);
    let scan = scan_t(ids_and_labels(), vec![]);
    let filtered = filter(id_cmp(CompareOp::GtEq, 2), scan);
    let batches = run_scan(&project(vec!["label"], filtered), &store);
    let labels: Vec<_> = batches.iter().flat_map(|b| b.columns[0].clone()).collect();
    assert_eq!(labels, vec![Value::Text("b".into()), Value::Text("c".into())]);
}

#[test]
fn projection_exec_unknown_column_errors() {
    let store = store_with_labels(&[(1, Some("a"))]);
    let plan = project(vec!["ghost"], scan_t(ids(), vec![]));
    let mut stream = execute_stream(&plan, &store).unwrap();
    assert!(stream.next().unwrap().is_err());
}

fn sort(column: &str, descending: bool, input: PhysicalPlan) -> PhysicalPlan {
    PhysicalPlan::SortExec { column: column.into(), descending, input: Box::new(input) }
}

#[test]
fn sort_exec_orders_ascending_by_int() {
    let store = store_with_labels(&[(3, Some("c")), (1, Some("a")), (2, Some("b"))]);
    let scan = scan_t(ids_and_labels(), vec![]);
    let batches = run_scan(&sort("id", false, scan), &store);
    assert_eq!(scanned_ids(&batches), vec![1, 2, 3]);
}

#[test]
fn sort_exec_orders_descending_by_int() {
    let store = store_with_labels(&[(3, Some("c")), (1, Some("a")), (2, Some("b"))]);
    let scan = scan_t(ids_and_labels(), vec![]);
    let batches = run_scan(&sort("id", true, scan), &store);
    assert_eq!(scanned_ids(&batches), vec![3, 2, 1]);
}

#[test]
fn sort_exec_orders_by_text_column() {
    // Labels order differently from ids: a(id2), b(id3), c(id1).
    let store = store_with_labels(&[(1, Some("c")), (2, Some("a")), (3, Some("b"))]);
    let scan = scan_t(ids_and_labels(), vec![]);
    let batches = run_scan(&sort("label", false, scan), &store);
    assert_eq!(scanned_ids(&batches), vec![2, 3, 1]);
}

#[test]
fn sort_exec_places_nulls_first_ascending() {
    // NULL (id2) sorts before 'a' (id3) before 'b' (id1).
    let store = store_with_labels(&[(1, Some("b")), (2, None), (3, Some("a"))]);
    let scan = scan_t(ids_and_labels(), vec![]);
    let batches = run_scan(&sort("label", false, scan), &store);
    assert_eq!(scanned_ids(&batches), vec![2, 3, 1]);
}

#[test]
fn sort_exec_errors_when_column_not_in_input() {
    // `label` was not selected, so the sort cannot see it.
    let store = store_with_labels(&[(1, Some("a"))]);
    let plan = sort("label", false, scan_t(ids(), vec![]));
    assert!(execute_stream(&plan, &store).is_err());
}

fn limit(count: u64, input: PhysicalPlan) -> PhysicalPlan {
    PhysicalPlan::LimitExec { count, input: Box::new(input) }
}

#[test]
fn limit_exec_caps_rows_below_total() {
    let store = store_with_groups(&[1, 2, 3, 4, 5, 6]);
    let batches = run_scan(&limit(2, scan_t(ids(), vec![])), &store);
    assert_eq!(scanned_ids(&batches), vec![1, 2]);
}

#[test]
fn limit_exec_above_total_returns_everything() {
    let store = store_with_groups(&[1, 2, 3]);
    let batches = run_scan(&limit(10, scan_t(ids(), vec![])), &store);
    assert_eq!(scanned_ids(&batches), vec![1, 2, 3]);
}

#[test]
fn limit_exec_zero_is_empty() {
    let store = store_with_groups(&[1, 2, 3]);
    let batches = run_scan(&limit(0, scan_t(ids(), vec![])), &store);
    assert_eq!(scanned_ids(&batches), Vec::<i64>::new());
}

#[test]
fn limit_exec_truncates_across_a_batch_boundary() {
    // Row groups of 2: [1,2] [3,4] [5,6]. LIMIT 3 takes the first group whole
    // and one row of the second.
    let store = store_with_groups(&[1, 2, 3, 4, 5, 6]);
    let batches = run_scan(&limit(3, scan_t(ids(), vec![])), &store);
    assert_eq!(scanned_ids(&batches), vec![1, 2, 3]);
}

#[test]
fn limit_exec_applies_after_filter() {
    let store = store_with_groups(&[1, 2, 3, 4, 5, 6]);
    let filtered = filter(id_cmp(CompareOp::Gt, 2), scan_t(ids(), vec![]));
    let batches = run_scan(&limit(2, filtered), &store);
    assert_eq!(scanned_ids(&batches), vec![3, 4]);
}

fn topk(column: &str, descending: bool, count: u64, input: PhysicalPlan) -> PhysicalPlan {
    PhysicalPlan::TopKExec { column: column.into(), descending, count, input: Box::new(input) }
}

#[test]
fn top_k_keeps_smallest_ascending_across_batches() {
    // Row groups of 2 → the kept rows must span batches: [5,3] [1,6] [2,4].
    let store = store_with_groups(&[5, 3, 1, 6, 2, 4]);
    let batches = run_scan(&topk("id", false, 3, scan_t(ids(), vec![])), &store);
    assert_eq!(scanned_ids(&batches), vec![1, 2, 3]);
}

#[test]
fn top_k_keeps_largest_descending() {
    let store = store_with_groups(&[5, 3, 1, 6, 2, 4]);
    let batches = run_scan(&topk("id", true, 2, scan_t(ids(), vec![])), &store);
    assert_eq!(scanned_ids(&batches), vec![6, 5]);
}

#[test]
fn top_k_orders_by_text_column() {
    let store = store_with_labels(&[(1, Some("c")), (2, Some("a")), (3, Some("b"))]);
    let scan = scan_t(ids_and_labels(), vec![]);
    let batches = run_scan(&topk("label", false, 2, scan), &store);
    assert_eq!(scanned_ids(&batches), vec![2, 3]);
}

#[test]
fn top_k_ascending_places_nulls_first() {
    let store = store_with_labels(&[(1, Some("b")), (2, None), (3, Some("a"))]);
    let scan = scan_t(ids_and_labels(), vec![]);
    let batches = run_scan(&topk("label", false, 2, scan), &store);
    assert_eq!(scanned_ids(&batches), vec![2, 3]);
}

#[test]
fn top_k_count_above_total_sorts_everything() {
    let store = store_with_groups(&[3, 1, 2]);
    let batches = run_scan(&topk("id", false, 10, scan_t(ids(), vec![])), &store);
    assert_eq!(scanned_ids(&batches), vec![1, 2, 3]);
}

#[test]
fn top_k_count_zero_is_empty() {
    let store = store_with_groups(&[3, 1, 2]);
    let batches = run_scan(&topk("id", false, 0, scan_t(ids(), vec![])), &store);
    assert_eq!(scanned_ids(&batches), Vec::<i64>::new());
}

#[test]
fn top_k_errors_when_column_not_in_input() {
    let store = store_with_labels(&[(1, Some("a"))]);
    let plan = topk("label", false, 1, scan_t(ids(), vec![]));
    assert!(execute_stream(&plan, &store).is_err());
}

#[test]
fn execute_select_returns_rows_with_projected_columns() {
    // The full relational path: scan → project → collected QueryResult::Rows.
    let mut store = store_with_labels(&[(1, Some("a")), (2, Some("b"))]);
    let plan = project(vec!["label", "id"], scan_t(ids_and_labels(), vec![]));
    let result = run(&plan, &mut store).unwrap();
    assert_eq!(
        result,
        QueryResult::Rows {
            names: vec!["label".into(), "id".into()],
            rows: vec![
                vec![Value::Text("a".into()), Value::Int(1)],
                vec![Value::Text("b".into()), Value::Int(2)],
            ],
        }
    );
}

// ---- more ----

/// Rows that compare equal keep their order, whole sort and best rows alike.
#[test]
fn equal_keys_keep_their_order() {
    let rows = [(1, Some("x")), (2, Some("x")), (3, Some("a")), (4, Some("x"))];
    let store = store_t(&rows, Some(2));
    let scan = || scan_t(ids_and_labels(), vec![]);
    let sorted = run_scan(&sort("label", false, scan()), &store);
    assert_eq!(scanned_ids(&sorted), vec![3, 1, 2, 4]);
    let reversed = run_scan(&sort("label", true, scan()), &store);
    assert_eq!(scanned_ids(&reversed), vec![1, 2, 4, 3]);
    let best = run_scan(&topk("label", true, 2, scan()), &store);
    assert_eq!(scanned_ids(&best), vec![1, 2]);
}

/// Deleting and updating touch the rows that satisfy the condition, and only
/// those; an updated row moves to the end.
#[test]
fn delete_and_update_touch_the_matching_rows() {
    let mut store = store_with_groups(&[1, 2, 3, 4]);
    let plan = PhysicalPlan::UpdateExec {
        table: "t".into(),
        assignments: vec![balik_db::parser::ast::Assignment {
            column: "label".into(),
            value: Literal::Text("new".into()),
        }],
        filter: Some(id_cmp(CompareOp::LtEq, 2)),
    };
    assert_eq!(
        run(&plan, &mut store).unwrap(),
        QueryResult::Affected("Updated 2 row(s) in 't'".into())
    );
    let plan =
        PhysicalPlan::DeleteExec { table: "t".into(), filter: Some(id_cmp(CompareOp::Eq, 3)) };
    assert_eq!(
        run(&plan, &mut store).unwrap(),
        QueryResult::Affected("Deleted 1 row(s) from 't'".into())
    );
    let batches = run_scan(&scan_t(ids_and_labels(), vec![]), &store);
    assert_eq!(scanned_ids(&batches), vec![4, 1, 2]);
    let labels: Vec<Value> = batches.iter().flat_map(|b| b.columns[1].clone()).collect();
    let new = Value::Text("new".into());
    assert_eq!(labels, vec![Value::Null, new.clone(), new]);
}

/// A store that still has room for rows and tables is ready for any plan.
#[test]
fn readiness_is_a_matter_of_identifiers() {
    let mut store = seeded_store();
    let handle = store.open_table("users").unwrap();
    assert!(has_row_room(&handle, u64::MAX, &store));
    let row = insert("users", vec![Literal::Int(1), Literal::Null, Literal::Null]);
    run(&row, &mut store).unwrap();
    assert!(has_row_room(&handle, 1000, &store));
    assert!(!has_row_room(&handle, u64::MAX, &store));
    let create = PhysicalPlan::CreateTableExec { table: "x".into(), columns: vec![] };
    assert!(is_ready(&create, &store, 1));
    assert!(!is_ready(&create, &store, u64::MAX));
}

/// Once a limit is spent nothing more is read, so that damage behind it is never
/// met.
#[test]
fn limit_exec_reads_no_further() {
    let store = store_with_groups(&[1, 2, 3, 4, 5]);
    let plan = limit(3, filter(id_cmp(CompareOp::Gt, 1), scan_t(ids(), vec![])));
    let mut stream = execute_stream(&plan, &store).unwrap();
    let mut rows = 0;
    while let Some(batch) = stream.next() {
        rows += batch.unwrap().num_rows();
    }
    assert_eq!(rows, 3);
    assert!(stream.next().is_none());
    assert!(stream.next().is_none());

    // A condition that fails on every batch does no harm where none is asked for.
    let broken = || filter(Expr::Column("id".into()), scan_t(ids(), vec![]));
    let plan = limit(0, broken());
    assert!(execute_stream(&plan, &store).unwrap().next().is_none());
    let plan = limit(1, broken());
    assert!(execute_stream(&plan, &store).unwrap().next().unwrap().is_err());
}
