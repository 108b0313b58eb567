//! Parsing SQL.

use balik_db::parser::ast::{
    Assignment, ColumnDef, CompareOp, DataType, Delete, Describe, DropTable, Expr, Literal,
    LogicalOp, OrderBy, Projection, Statement, Update,
};
use balik_db::parser::{parse, single_statement};

fn col(s: &str) -> Expr {
    Expr::Column(s.to_string())
}
fn number(n: i64) -> Expr {
    Expr::Literal(Literal::Int(n))
}

// ---- CREATE TABLE ----

#[test]
fn create_table_basic() {
    let stmt = parse("CREATE TABLE users (id INT, name TEXT, age INT)").unwrap();
    let Statement::CreateTable(ct) = stmt else {
        panic!("expected CreateTable, got {stmt:?}");
    };
    assert_eq!(ct.table, "users");
    assert_eq!(
        ct.columns,
        vec![
            ColumnDef {
                name: "id".into(),
                ty: DataType::Int,
                nullable: true,
            },
            ColumnDef {
                name: "name".into(),
                ty: DataType::Text,
                nullable: true,
            },
            ColumnDef {
                name: "age".into(),
                ty: DataType::Int,
                nullable: true,
            },
        ]
    );
}

#[test]
fn create_table_empty_columns_is_rejected() {
    assert!(parse("CREATE TABLE users ()").is_err());
}

#[test]
fn create_table_unknown_type_is_rejected() {
    let err = parse("CREATE TABLE t (x FLOAT)").unwrap_err();
    assert!(err.to_string().contains("FLOAT"), "{}", err.to_string());
}

// ---- INSERT ----

#[test]
fn insert_values_basic() {
    let stmt = parse("INSERT INTO users VALUES (1, 'Alice', NULL)").unwrap();
    let Statement::Insert(ins) = stmt else {
        panic!("expected Insert, got {stmt:?}");
    };
    assert_eq!(ins.table, "users");
    assert_eq!(
        ins.values,
        vec![
            Literal::Int(1),
            Literal::Text("Alice".into()),
            Literal::Null
        ]
    );
}

#[test]
fn insert_negative_integer() {
    let Statement::Insert(ins) = parse("INSERT INTO t VALUES (-5)").unwrap() else {
        panic!("expected Insert");
    };
    assert_eq!(ins.values, vec![Literal::Int(-5)]);
}

#[test]
fn insert_without_values_is_rejected() {
    assert!(parse("INSERT INTO users VALUES").is_err());
    assert!(parse("INSERT INTO users VALUES ()").is_err());
}

#[test]
fn insert_multi_row_is_rejected_as_unsupported() {
    let err = parse("INSERT INTO users VALUES (1, 'a'), (2, 'b')").unwrap_err();
    assert!(err.to_string().contains("multi-row"), "{}", err.to_string());
}

// ---- SELECT ----

#[test]
fn select_star() {
    let Statement::Select(s) = parse("SELECT * FROM users").unwrap() else {
        panic!("expected Select");
    };
    assert_eq!(s.projections, Projection::All);
    assert_eq!(s.from, "users");
    assert!(s.filter.is_none());
    assert!(s.order_by.is_none());
    assert!(s.limit.is_none());
}

#[test]
fn select_columns() {
    let Statement::Select(s) = parse("SELECT id, name FROM users").unwrap() else {
        panic!("expected Select");
    };
    assert_eq!(
        s.projections,
        Projection::Columns(vec!["id".into(), "name".into()])
    );
}

#[test]
fn select_where_comparison() {
    let Statement::Select(s) = parse("SELECT id, name FROM users WHERE age > 18").unwrap()
    else {
        panic!("expected Select");
    };
    assert_eq!(
        s.filter,
        Some(Expr::Compare {
            left: Box::new(col("age")),
            op: CompareOp::Gt,
            right: Box::new(number(18)),
        })
    );
}

#[test]
fn select_where_string_eq_and_limit() {
    let Statement::Select(s) =
        parse("SELECT id FROM users WHERE name = 'Alice' LIMIT 10").unwrap()
    else {
        panic!("expected Select");
    };
    assert_eq!(
        s.filter,
        Some(Expr::Compare {
            left: Box::new(col("name")),
            op: CompareOp::Eq,
            right: Box::new(Expr::Literal(Literal::Text("Alice".into()))),
        })
    );
    assert_eq!(s.limit, Some(10));
}

#[test]
fn select_all_comparison_operators() {
    for (sql, op) in [
        ("=", CompareOp::Eq),
        ("!=", CompareOp::NotEq),
        ("<", CompareOp::Lt),
        ("<=", CompareOp::LtEq),
        (">", CompareOp::Gt),
        (">=", CompareOp::GtEq),
    ] {
        let q = format!("SELECT id FROM t WHERE a {sql} 1");
        let Statement::Select(s) = parse(&q).unwrap() else {
            panic!("expected Select for {q}");
        };
        match s.filter {
            Some(Expr::Compare { op: got, .. }) => assert_eq!(got, op, "{q}"),
            other => panic!("expected comparison for {q}, got {other:?}"),
        }
    }
}

#[test]
fn select_and_or() {
    let Statement::Select(s) =
        parse("SELECT id FROM t WHERE a > 1 AND b < 2 OR c = 3").unwrap()
    else {
        panic!("expected Select");
    };
    // OR has lower precedence, so it is the root.
    match s.filter {
        Some(Expr::Logical {
            op: LogicalOp::Or, ..
        }) => {}
        other => panic!("expected OR at the root, got {other:?}"),
    }
}

#[test]
fn select_parenthesized_where() {
    let Statement::Select(s) = parse("SELECT id FROM t WHERE (a = 1)").unwrap() else {
        panic!("expected Select");
    };
    assert_eq!(
        s.filter,
        Some(Expr::Compare {
            left: Box::new(col("a")),
            op: CompareOp::Eq,
            right: Box::new(number(1)),
        })
    );
}

#[test]
fn select_order_by_directions() {
    let Statement::Select(s) = parse("SELECT id FROM t ORDER BY name").unwrap() else {
        panic!("expected Select");
    };
    assert_eq!(
        s.order_by,
        Some(OrderBy {
            column: "name".into(),
            descending: false
        })
    );

    let Statement::Select(s) = parse("SELECT id FROM t ORDER BY name DESC").unwrap() else {
        panic!("expected Select");
    };
    assert_eq!(s.order_by.unwrap().descending, true);
}

#[test]
fn select_full_clause_chain() {
    let stmt =
        parse("SELECT id, name FROM users WHERE age > 18 ORDER BY name LIMIT 10").unwrap();
    let Statement::Select(s) = stmt else {
        panic!("expected Select");
    };
    assert_eq!(
        s.projections,
        Projection::Columns(vec!["id".into(), "name".into()])
    );
    assert!(s.filter.is_some());
    assert_eq!(s.order_by.unwrap().column, "name");
    assert_eq!(s.limit, Some(10));
}

// ---- malformed input ----

#[test]
fn malformed_inputs_return_errors_without_panicking() {
    for q in [
        "SELEC id FROM users",         // misspelled keyword
        "SELECT FROM users",           // no projection
        "INSERT INTO users VALUES",    // no values list
        "CREATE TABLE users ()",       // no columns
        "SELECT id users",             // missing FROM (parses as `id AS users`, no FROM)
        "SELECT id FROM users WHERE",  // WHERE without expression
        "SELECT id FROM users LIMIT",  // LIMIT without a number
        "",                            // empty input
        "   ",                         // whitespace only
    ] {
        assert!(parse(q).is_err(), "expected error for {q:?}");
    }
}

// ---- valid SQL outside the subset ----

#[test]
fn unsupported_constructs_are_rejected() {
    for q in [
        "SELECT a FROM x JOIN y ON x.id = y.id",
        "SELECT count(*) FROM t GROUP BY a",
        "SELECT a FROM t1, t2",
        "SELECT a FROM (SELECT a FROM t) s",
        "WITH cte AS (SELECT 1) SELECT * FROM cte",
        "SELECT a FROM t UNION SELECT a FROM u",
    ] {
        let err = parse(q).unwrap_err();
        assert!(
            err.to_string().contains("unsupported"),
            "expected an `unsupported` error for {:?}, got: {}",
            q,
            err.to_string()
        );
    }
}

// ---- the other statements ----

#[test]
fn not_null_makes_a_column_mandatory() {
    let stmt = parse("CREATE TABLE t (id INTEGER NOT NULL, name VARCHAR(10) NULL)").unwrap();
    let Statement::CreateTable(ct) = stmt else {
        panic!("expected CreateTable");
    };
    assert_eq!(
        ct.columns,
        vec![
            ColumnDef { name: "id".into(), ty: DataType::Int, nullable: false },
            ColumnDef { name: "name".into(), ty: DataType::Text, nullable: true },
        ]
    );
}

#[test]
fn drop_show_and_describe() {
    assert_eq!(
        parse("DROP TABLE users").unwrap(),
        Statement::DropTable(DropTable { table: "users".into() })
    );
    assert_eq!(parse("SHOW TABLES").unwrap(), Statement::ShowTables);
    assert_eq!(
        parse("DESCRIBE users").unwrap(),
        Statement::Describe(Describe { table: "users".into(), extended: false })
    );
    assert_eq!(
        parse("DESCRIBE EXTENDED users").unwrap(),
        Statement::Describe(Describe { table: "users".into(), extended: true })
    );
}

#[test]
fn delete_and_update() {
    assert_eq!(
        parse("DELETE FROM users").unwrap(),
        Statement::Delete(Delete { table: "users".into(), filter: None })
    );
    let age = Expr::Compare {
        left: Box::new(col("age")),
        op: CompareOp::GtEq,
        right: Box::new(number(18)),
    };
    assert_eq!(
        parse("UPDATE users SET name = 'x', age = -1 WHERE age >= 18").unwrap(),
        Statement::Update(Update {
            table: "users".into(),
            assignments: vec![
                Assignment { column: "name".into(), value: Literal::Text("x".into()) },
                Assignment { column: "age".into(), value: Literal::Int(-1) },
            ],
            filter: Some(age),
        })
    );
}

/// `AND` binds tighter than `OR`, and the trees say so.
#[test]
fn and_or_nest_by_precedence() {
    let Statement::Select(s) = parse("SELECT id FROM t WHERE a > 1 AND b < 2 OR c = 3").unwrap()
    else {
        panic!("expected Select");
    };
    let cmp = |c: &str, op: CompareOp, n: i64| Expr::Compare {
        left: Box::new(col(c)),
        op,
        right: Box::new(number(n)),
    };
    assert_eq!(
        s.filter,
        Some(Expr::Logical {
            left: Box::new(Expr::Logical {
                left: Box::new(cmp("a", CompareOp::Gt, 1)),
                op: LogicalOp::And,
                right: Box::new(cmp("b", CompareOp::Lt, 2)),
            }),
            op: LogicalOp::Or,
            right: Box::new(cmp("c", CompareOp::Eq, 3)),
        })
    );
}

#[test]
fn one_statement_is_expected() {
    let text = |q: &str| parse(q).unwrap_err().to_string();
    assert_eq!(text(""), "empty input: expected a SQL statement");
    assert_eq!(
        text("SELECT * FROM a; SELECT * FROM b"),
        "expected a single SQL statement per query"
    );
    assert_eq!(
        single_statement(&Vec::new()).unwrap_err().to_string(),
        "empty input: expected a SQL statement"
    );
    assert!(parse("SELECT * FROM a;").is_ok());
}

#[test]
fn largest_and_smallest_integers() {
    let value = |q: &str| match parse(q).unwrap() {
        Statement::Insert(i) => i.values[0].clone(),
        other => panic!("expected Insert, got {other:?}"),
    };
    assert_eq!(value("INSERT INTO t VALUES (9223372036854775807)"), Literal::Int(i64::MAX));
    assert_eq!(value("INSERT INTO t VALUES (-9223372036854775807)"), Literal::Int(-i64::MAX));
    assert_eq!(
        parse("INSERT INTO t VALUES (9223372036854775808)").unwrap_err().to_string(),
        "`9223372036854775808` is not a valid integer"
    );
}

/// A syntax error carries the tokenizer's or the parser's own words.
#[test]
fn syntax_errors_are_passed_on() {
    let text = parse("SELECT id FROM users WHERE").unwrap_err().to_string();
    assert!(!text.is_empty());
    assert_ne!(text, "SELECT id FROM users WHERE");
    assert!(parse("SELECT 'open FROM t").is_err());
}

#[test]
fn more_unsupported_constructs_are_rejected() {
    for q in [
        "SELECT DISTINCT a FROM t",
        "SELECT a AS b FROM t",
        "SELECT t.a FROM t",
        "SELECT a FROM t LIMIT 1 OFFSET 2",
        "SELECT a FROM t ORDER BY a, b",
        "SELECT a FROM t HAVING a > 1",
        "SELECT a FROM t WHERE a + 1 = 2",
        "SELECT a FROM t WHERE a BETWEEN 1 AND 2",
        "INSERT INTO t (a) VALUES (1)",
        "INSERT INTO t SELECT a FROM u",
        "DROP TABLE IF EXISTS t",
        "DROP TABLE a, b",
        "UPDATE t SET a = b",
        "CREATE INDEX i ON t (a)",
        "TRUNCATE TABLE t",
    ] {
        assert!(parse(q).is_err(), "expected an error for {q:?}");
    }
}

/// Every 64-bit integer comes through, the smallest one included.
#[test]
fn extreme_integers_come_through() {
    for n in [i64::MIN, i64::MIN + 1, -1, 0, i64::MAX] {
        let stmt = parse(&format!("INSERT INTO t VALUES ({n})")).unwrap();
        match stmt {
            Statement::Insert(ins) => assert_eq!(ins.values, vec![Literal::Int(n)]),
            other => panic!("expected an insert, got {other:?}"),
        }
    }
    for q in ["9223372036854775808", "-9223372036854775809", "-(-9223372036854775808)"] {
        assert!(parse(&format!("INSERT INTO t VALUES ({q})")).is_err(), "{q}");
    }
    let err = parse("INSERT INTO t VALUES (- -9223372036854775808)").unwrap_err();
    assert!(err.to_string().contains("`9223372036854775808` is not a valid integer"));
}

/// A `FLUSH RELAY LOGS FOR CHANNEL` that names no channel is an error, wherever
/// it stands.
#[test]
fn unnamed_channels_are_errors() {
    for q in [
        "FLUSH RELAY LOGS FOR CHANNEL",
        "flush local relay logs for channel",
        "FLUSH NO_WRITE_TO_BINLOG RELAY LOGS FOR CHANNEL;",
        "FLUSH RELAY LOGS FOR CHANNEL 5",
        "FLUSH RELAY LOGS FOR /* none */ CHANNEL a.",
        "SELECT a FROM t; FLUSH RELAY LOGS FOR CHANNEL a . ;",
        "EXPLAIN FLUSH RELAY LOGS FOR CHANNEL",
        "PREPARE p AS FLUSH RELAY LOGS FOR CHANNEL;",
    ] {
        let err = parse(q).unwrap_err();
        assert!(err.to_string().contains("found: FOR"), "{q}: {}", err.to_string());
    }
}

/// Where the parser does not get to the missing name, the text is answered as it
/// would be with any other word in its place.
#[test]
fn channels_elsewhere_are_words() {
    let text = |q: &str| parse(q).unwrap_err().to_string();
    for q in [
        "RELAY LOGS FOR CHANNEL",
        "SELECT a FROM t WHERE RELAY LOGS FOR CHANNEL",
        "SELECT ; FLUSH RELAY LOGS FOR CHANNEL",
        "SELECT a b FLUSH RELAY LOGS FOR CHANNEL",
        "INSERT INTO t VALUES (FLUSH RELAY LOGS FOR CHANNEL)",
        "SHOW FLUSH RELAY LOGS FOR CHANNEL",
        "FLUSH TABLES FLUSH RELAY LOGS FOR CHANNEL",
        "FLUSH TABLES a, FLUSH RELAY LOGS FOR CHANNEL .",
        "FLUSH FLUSH RELAY LOGS FOR CHANNEL",
    ] {
        let other = q.replace("CHANNEL", "CONTINUE");
        assert_eq!(text(q), text(&other).replace("CONTINUE", "CHANNEL"), "{q}");
    }
    assert!(text("FLUSH RELAY LOGS FOR CHANNEL a.b").contains("unsupported"));
    assert!(text("FLUSH RELAY LOGS FOR CHANNEL 'a'").contains("unsupported"));
    assert!(parse("INSERT INTO t VALUES ('FLUSH RELAY LOGS FOR CHANNEL')").is_ok());
}
