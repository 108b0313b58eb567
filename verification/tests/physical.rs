//! The physical layer without storage: conditions, pruning hints, results and
//! how plans are shown.

use balik_db::error::Error;
use balik_db::execution::logical::plan::LogicalPlan;
use balik_db::execution::physical::expr::evaluate_predicate;
use balik_db::execution::physical::plan::PhysicalPlan;
use balik_db::execution::physical::prune::extract_scan_predicates;
use balik_db::execution::physical::result::{collect_rows, QueryResult};
use balik_db::execution::physical::sort::{sort_batches, top_k};
use balik_db::execution::physical::stream::BatchStream;
use balik_db::parser::ast::{
    Assignment, ColumnDef, CompareOp, DataType, Expr, Literal, LogicalOp,
};
use balik_db::storage::{ColumnBatch, ScanCompare, ScanPredicate, Value};

// ---- conditions ----

fn batch() -> ColumnBatch {
    ColumnBatch {
        names: vec!["id".into(), "name".into()],
        columns: vec![
            vec![Value::Int(1), Value::Int(2), Value::Int(3), Value::Null],
            vec![
                Value::Text("a".into()),
                Value::Text("b".into()),
                Value::Text("c".into()),
                Value::Text("d".into()),
            ],
        ],
    }
}

fn col(name: &str) -> Box<Expr> {
    Box::new(Expr::Column(name.into()))
}

fn number(n: i64) -> Box<Expr> {
    Box::new(Expr::Literal(Literal::Int(n)))
}

fn cmp(left: Box<Expr>, op: CompareOp, right: Box<Expr>) -> Expr {
    Expr::Compare { left, op, right }
}

#[test]
fn greater_than_on_int_column() {
    let mask = evaluate_predicate(&cmp(col("id"), CompareOp::Gt, number(1)), &batch()).unwrap();
    assert_eq!(mask, vec![false, true, true, false]);
}

#[test]
fn all_six_comparisons() {
    let b = batch();
    let eval = |op| evaluate_predicate(&cmp(col("id"), op, number(2)), &b).unwrap();
    assert_eq!(eval(CompareOp::Eq), vec![false, true, false, false]);
    assert_eq!(eval(CompareOp::NotEq), vec![true, false, true, false]);
    assert_eq!(eval(CompareOp::Lt), vec![true, false, false, false]);
    assert_eq!(eval(CompareOp::LtEq), vec![true, true, false, false]);
    assert_eq!(eval(CompareOp::Gt), vec![false, false, true, false]);
    assert_eq!(eval(CompareOp::GtEq), vec![false, true, true, false]);
}

#[test]
fn null_never_matches() {
    // The 4th id is NULL: false for every operator, including `!=`.
    let mask =
        evaluate_predicate(&cmp(col("id"), CompareOp::NotEq, number(999)), &batch()).unwrap();
    assert_eq!(mask, vec![true, true, true, false]);
}

#[test]
fn text_comparison_is_lexicographic() {
    let pred = cmp(
        col("name"),
        CompareOp::GtEq,
        Box::new(Expr::Literal(Literal::Text("c".into()))),
    );
    let mask = evaluate_predicate(&pred, &batch()).unwrap();
    assert_eq!(mask, vec![false, false, true, true]);
}

#[test]
fn and_combines_masks() {
    let pred = Expr::Logical {
        left: Box::new(cmp(col("id"), CompareOp::GtEq, number(2))),
        op: LogicalOp::And,
        right: Box::new(cmp(col("id"), CompareOp::LtEq, number(3))),
    };
    let mask = evaluate_predicate(&pred, &batch()).unwrap();
    assert_eq!(mask, vec![false, true, true, false]);
}

#[test]
fn or_combines_masks() {
    let pred = Expr::Logical {
        left: Box::new(cmp(col("id"), CompareOp::Eq, number(1))),
        op: LogicalOp::Or,
        right: Box::new(cmp(col("id"), CompareOp::Eq, number(3))),
    };
    let mask = evaluate_predicate(&pred, &batch()).unwrap();
    assert_eq!(mask, vec![true, false, true, false]);
}

#[test]
fn literal_on_the_left_is_evaluated_directly() {
    // 2 < id
    let mask = evaluate_predicate(&cmp(number(2), CompareOp::Lt, col("id")), &batch()).unwrap();
    assert_eq!(mask, vec![false, false, true, false]);
}

#[test]
fn unknown_column_errors() {
    let pred = cmp(col("ghost"), CompareOp::Eq, number(1));
    assert!(evaluate_predicate(&pred, &batch()).is_err());
}

// ---- pruning hints ----

#[test]
fn extracts_column_op_literal() {
    let preds = extract_scan_predicates(&cmp(col("age"), CompareOp::Gt, number(18)));
    assert_eq!(
        preds,
        vec![ScanPredicate {
            column: "age".into(),
            op: ScanCompare::Gt,
            value: 18,
        }]
    );
}

#[test]
fn flips_operator_when_literal_is_on_the_left() {
    let preds = extract_scan_predicates(&cmp(number(18), CompareOp::Lt, col("age")));
    assert_eq!(
        preds,
        vec![ScanPredicate {
            column: "age".into(),
            op: ScanCompare::Gt,
            value: 18,
        }]
    );
}

#[test]
fn descends_through_and_collecting_both_sides() {
    let expr = Expr::Logical {
        left: Box::new(cmp(col("age"), CompareOp::GtEq, number(18))),
        op: LogicalOp::And,
        right: Box::new(cmp(col("id"), CompareOp::Lt, number(100))),
    };
    let preds = extract_scan_predicates(&expr);
    assert_eq!(preds.len(), 2);
    assert_eq!(preds[0].column, "age");
    assert_eq!(preds[1].column, "id");
}

#[test]
fn ignores_predicates_under_or() {
    let expr = Expr::Logical {
        left: Box::new(cmp(col("age"), CompareOp::Gt, number(18))),
        op: LogicalOp::Or,
        right: Box::new(cmp(col("id"), CompareOp::Lt, number(100))),
    };
    assert!(extract_scan_predicates(&expr).is_empty());
}

#[test]
fn ignores_non_int_literal_comparisons() {
    let expr = cmp(
        col("name"),
        CompareOp::Eq,
        Box::new(Expr::Literal(Literal::Text("Alice".into()))),
    );
    assert!(extract_scan_predicates(&expr).is_empty());
}

#[test]
fn keeps_and_conjuncts_but_drops_nested_or() {
    // age > 1 AND (id < 2 OR id > 9)  →  only `age > 1` is mandatory.
    let nested_or = Expr::Logical {
        left: Box::new(cmp(col("id"), CompareOp::Lt, number(2))),
        op: LogicalOp::Or,
        right: Box::new(cmp(col("id"), CompareOp::Gt, number(9))),
    };
    let expr = Expr::Logical {
        left: Box::new(cmp(col("age"), CompareOp::Gt, number(1))),
        op: LogicalOp::And,
        right: Box::new(nested_or),
    };
    let preds = extract_scan_predicates(&expr);
    assert_eq!(preds.len(), 1);
    assert_eq!(preds[0].column, "age");
}

// ---- results ----

#[test]
fn collect_rows_transposes_column_major_batches() {
    let batch = ColumnBatch {
        names: vec!["id".into(), "name".into()],
        columns: vec![
            vec![Value::Int(1), Value::Int(2)],
            vec![Value::Text("a".into()), Value::Text("b".into())],
        ],
    };
    let result =
        collect_rows(vec!["id".into(), "name".into()], BatchStream::of(vec![batch])).unwrap();
    assert_eq!(
        result,
        QueryResult::Rows {
            names: vec!["id".into(), "name".into()],
            rows: vec![
                vec![Value::Int(1), Value::Text("a".into())],
                vec![Value::Int(2), Value::Text("b".into())],
            ],
        }
    );
}

#[test]
fn collect_rows_concatenates_across_batches() {
    let b1 = ColumnBatch {
        names: vec!["id".into()],
        columns: vec![vec![Value::Int(1)]],
    };
    let b2 = ColumnBatch {
        names: vec!["id".into()],
        columns: vec![vec![Value::Int(2), Value::Int(3)]],
    };
    let result = collect_rows(vec!["id".into()], BatchStream::of(vec![b1, b2])).unwrap();
    let QueryResult::Rows { rows, .. } = result else {
        panic!("expected rows");
    };
    assert_eq!(rows.len(), 3);
}

#[test]
fn display_renders_aligned_table() {
    let result = QueryResult::Rows {
        names: vec!["id".into(), "name".into()],
        rows: vec![
            vec![Value::Int(1), Value::Text("Alice".into())],
            vec![Value::Int(20), Value::Null],
        ],
    };
    assert_eq!(
        result.to_string(),
        "id | name \n---+------\n1  | Alice\n20 | NULL "
    );
}

#[test]
fn display_of_empty_rows_keeps_header_only() {
    let result = QueryResult::Rows {
        names: vec!["id".into(), "name".into()],
        rows: vec![],
    };
    assert_eq!(result.to_string(), "id | name\n---+-----");
}

#[test]
fn display_of_affected_is_the_message() {
    let result = QueryResult::Affected("Inserted 1 row into 'users'".into());
    assert_eq!(result.to_string(), "Inserted 1 row into 'users'");
}

// ---- how plans are shown ----

fn scan() -> PhysicalPlan {
    PhysicalPlan::TableScanExec {
        table: "users".into(),
        projection: None,
        prune: Vec::new(),
    }
}

fn logical_scan() -> LogicalPlan {
    LogicalPlan::Scan { table: "users".into(), columns: None }
}

#[test]
fn plan_renders_select_tree_outermost_first() {
    let plan = PhysicalPlan::ProjectionExec {
        columns: vec!["id".into(), "name".into()],
        input: Box::new(PhysicalPlan::LimitExec {
            count: 10,
            input: Box::new(PhysicalPlan::SortExec {
                column: "name".into(),
                descending: false,
                input: Box::new(PhysicalPlan::FilterExec {
                    predicate: Expr::Compare {
                        left: Box::new(Expr::Column("age".into())),
                        op: CompareOp::Gt,
                        right: Box::new(Expr::Literal(Literal::Int(18))),
                    },
                    input: Box::new(scan()),
                }),
            }),
        }),
    };
    assert_eq!(
        plan.to_string(),
        "ProjectionExec [id, name]\n  LimitExec 10\n    SortExec [name]\n      FilterExec [age > 18]\n        TableScanExec users"
    );
}

#[test]
fn renders_select_tree_outermost_first() {
    let plan = LogicalPlan::Limit {
        count: 10,
        input: Box::new(LogicalPlan::Projection {
            columns: vec!["id".into(), "name".into()],
            input: Box::new(LogicalPlan::Filter {
                predicate: Expr::Compare {
                    left: Box::new(Expr::Column("age".into())),
                    op: CompareOp::Gt,
                    right: Box::new(Expr::Literal(Literal::Int(18))),
                },
                input: Box::new(logical_scan()),
            }),
        }),
    };
    assert_eq!(
        plan.to_string(),
        "Limit 10\n  Projection [id, name]\n    Filter [age > 18]\n      Scan users"
    );
}

#[test]
fn scan_renders_projection_and_prune_hints() {
    let plan = PhysicalPlan::TableScanExec {
        table: "users".into(),
        projection: Some(vec!["id".into(), "name".into()]),
        prune: vec![ScanPredicate {
            column: "age".into(),
            op: ScanCompare::Gt,
            value: 18,
        }],
    };
    assert_eq!(
        plan.to_string(),
        "TableScanExec users [id, name] prune=[age > 18]"
    );
}

#[test]
fn top_k_renders_direction_and_count() {
    let plan = PhysicalPlan::TopKExec {
        column: "age".into(),
        descending: true,
        count: 5,
        input: Box::new(scan()),
    };
    assert_eq!(
        plan.to_string(),
        "TopKExec [age DESC] 5\n  TableScanExec users"
    );
}

#[test]
fn sort_renders_descending() {
    let plan = PhysicalPlan::SortExec {
        column: "name".into(),
        descending: true,
        input: Box::new(scan()),
    };
    assert_eq!(
        plan.to_string(),
        "SortExec [name DESC]\n  TableScanExec users"
    );
}

#[test]
fn plan_create_table_lists_columns_with_types() {
    let plan = PhysicalPlan::CreateTableExec {
        table: "users".into(),
        columns: vec![
            ColumnDef {
                name: "id".into(),
                ty: DataType::Int,
                nullable: false,
            },
            ColumnDef {
                name: "name".into(),
                ty: DataType::Text,
                nullable: true,
            },
        ],
    };
    assert_eq!(
        plan.to_string(),
        "CreateTableExec users [id INT NOT NULL, name TEXT]"
    );
}

#[test]
fn create_table_lists_columns_with_types() {
    let plan = LogicalPlan::CreateTable {
        table: "users".into(),
        columns: vec![
            ColumnDef {
                name: "id".into(),
                ty: DataType::Int,
                nullable: false,
            },
            ColumnDef {
                name: "name".into(),
                ty: DataType::Text,
                nullable: true,
            },
        ],
    };
    assert_eq!(
        plan.to_string(),
        "CreateTable users [id INT NOT NULL, name TEXT]"
    );
}

#[test]
fn renders_text_literal_quoted_in_filter() {
    let plan = LogicalPlan::Filter {
        predicate: Expr::Compare {
            left: Box::new(Expr::Column("name".into())),
            op: CompareOp::Eq,
            right: Box::new(Expr::Literal(Literal::Text("Alice".into()))),
        },
        input: Box::new(logical_scan()),
    };
    assert_eq!(plan.to_string(), "Filter [name = 'Alice']\n  Scan users");
}

#[test]
fn renders_sort_direction() {
    let plan = LogicalPlan::Sort {
        column: "name".into(),
        descending: true,
        input: Box::new(logical_scan()),
    };
    assert_eq!(plan.to_string(), "Sort [name DESC]\n  Scan users");
}

// ---- more ----

/// A condition has to be a comparison, and its operands columns or literals.
#[test]
fn malformed_conditions_have_their_messages() {
    let text = |e: &Expr| evaluate_predicate(e, &batch()).unwrap_err().to_string();
    assert_eq!(
        text(&cmp(col("ghost"), CompareOp::Eq, number(1))),
        "filter references column 'ghost' not present in the scanned batch"
    );
    assert_eq!(
        text(&col("id")),
        "filter predicate must be a boolean expression, not a bare column or literal"
    );
    let nested = Box::new(cmp(col("id"), CompareOp::Eq, number(1)));
    let err = evaluate_predicate(&cmp(nested, CompareOp::Eq, number(1)), &batch()).unwrap_err();
    assert!(matches!(err, Error::Other(_)));
    assert_eq!(err.to_string(), "a comparison operand must be a column or a literal");
}

#[test]
fn integer_and_text_never_match() {
    let pred = cmp(col("name"), CompareOp::NotEq, number(1));
    assert_eq!(evaluate_predicate(&pred, &batch()).unwrap(), vec![false; 4]);
}

/// Rows with equal keys keep the order they came in, in both directions, and so
/// do the first rows of the order.
#[test]
fn sorting_is_stable_and_top_k_is_its_start() {
    let rows = |keys: &[i64]| ColumnBatch {
        names: vec!["k".into(), "n".into()],
        columns: vec![
            keys.iter().map(|k| Value::Int(*k)).collect(),
            (0..keys.len()).map(|i| Value::Int(i64::try_from(i).unwrap())).collect(),
        ],
    };
    let keys = [2, 1, 2, 3, 1, 2];
    let ids = |b: Option<ColumnBatch>| b.unwrap().columns[1].clone();
    let ints = |v: &[i64]| v.iter().map(|n| Value::Int(*n)).collect::<Vec<Value>>();
    let sorted = |d: bool| ids(sort_batches(BatchStream::of(vec![rows(&keys)]), "k", d).unwrap());
    assert_eq!(sorted(false), ints(&[1, 4, 0, 2, 5, 3]));
    assert_eq!(sorted(true), ints(&[3, 0, 2, 5, 1, 4]));
    for n in 1..=6u64 {
        let top = ids(top_k(BatchStream::of(vec![rows(&keys)]), "k", true, n).unwrap());
        assert_eq!(top, sorted(true)[..usize::try_from(n).unwrap()].to_vec());
    }
}

#[test]
fn hints_cover_every_operator_both_ways() {
    let pairs = [
        (CompareOp::Eq, ScanCompare::Eq, ScanCompare::Eq),
        (CompareOp::NotEq, ScanCompare::NotEq, ScanCompare::NotEq),
        (CompareOp::Lt, ScanCompare::Lt, ScanCompare::Gt),
        (CompareOp::LtEq, ScanCompare::LtEq, ScanCompare::GtEq),
        (CompareOp::Gt, ScanCompare::Gt, ScanCompare::Lt),
        (CompareOp::GtEq, ScanCompare::GtEq, ScanCompare::LtEq),
    ];
    for (op, plain, flipped) in pairs {
        assert_eq!(extract_scan_predicates(&cmp(col("a"), op, number(5)))[0].op, plain);
        assert_eq!(extract_scan_predicates(&cmp(number(5), op, col("a")))[0].op, flipped);
    }
}

#[test]
fn other_statements_are_shown_on_one_line() {
    let age = cmp(col("age"), CompareOp::LtEq, number(3));
    let set = vec![
        Assignment { column: "name".into(), value: Literal::Null },
        Assignment { column: "age".into(), value: Literal::Int(-4) },
    ];
    assert_eq!(
        PhysicalPlan::UpdateExec {
            table: "t".into(),
            assignments: set.clone(),
            filter: Some(age.clone())
        }
        .to_string(),
        "UpdateExec t [name = NULL, age = -4] WHERE age <= 3"
    );
    assert_eq!(
        LogicalPlan::Delete { table: "t".into(), filter: None }.to_string(),
        "Delete t"
    );
    assert_eq!(PhysicalPlan::ShowTablesExec.to_string(), "ShowTablesExec");
}

#[test]
fn result_without_rows_or_with_long_cells_lines_up() {
    let result = QueryResult::Rows {
        names: vec!["x".into()],
        rows: vec![vec![Value::Text("long text".into())], vec![Value::Int(-1)]],
    };
    assert_eq!(result.to_string(), "x        \n---------\nlong text\n-1       ");
}
