//! Table definitions.

use balik_db::catalog::schema::{Column, ColumnType, Schema, MAX_IDENT_LEN};
use balik_db::error::Error;

fn col(name: &str, ty: ColumnType, nullable: bool) -> Column {
    Column {
        name: name.to_string(),
        ty,
        nullable,
    }
}


#[test]
fn validate_accepts_simple_schema() {
    let schema = Schema {
        columns: vec![
            col("id", ColumnType::Int, false),
            col("name", ColumnType::Text, true),
        ],
    };
    schema.validate("users").unwrap();
}

#[test]
fn validate_rejects_empty_table_name() {
    let schema = Schema {
        columns: vec![col("id", ColumnType::Int, false)],
    };
    let err = schema.validate("").unwrap_err();
    assert!(err.to_string().contains("table name cannot be empty"));
}

#[test]
fn validate_rejects_table_name_starting_with_digit() {
    let schema = Schema {
        columns: vec![col("id", ColumnType::Int, false)],
    };
    let err = schema.validate("1users").unwrap_err();
    assert!(err.to_string().contains("must start with a letter"));
}

#[test]
fn validate_rejects_table_name_with_invalid_chars() {
    let schema = Schema {
        columns: vec![col("id", ColumnType::Int, false)],
    };
    let err = schema.validate("user-table").unwrap_err();
    assert!(err.to_string().contains("invalid character"));
}

#[test]
fn validate_rejects_zero_columns() {
    let schema = Schema { columns: vec![] };
    let err = schema.validate("users").unwrap_err();
    assert!(err.to_string().contains("at least one column"));
}

#[test]
fn validate_rejects_empty_column_name() {
    let schema = Schema {
        columns: vec![col("", ColumnType::Int, false)],
    };
    let err = schema.validate("users").unwrap_err();
    assert!(err.to_string().contains("column name cannot be empty"));
}

#[test]
fn validate_rejects_duplicate_columns_case_insensitive() {
    let schema = Schema {
        columns: vec![
            col("Name", ColumnType::Text, false),
            col("name", ColumnType::Text, false),
        ],
    };
    let err = schema.validate("users").unwrap_err();
    assert!(err.to_string().contains("duplicate column name"));
}

#[test]
fn validate_rejects_overlong_identifiers() {
    let long = "a".repeat(MAX_IDENT_LEN + 1);
    let schema = Schema {
        columns: vec![col("id", ColumnType::Int, false)],
    };
    let err = schema.validate(&long).unwrap_err();
    assert!(err.to_string().contains("exceeds"));
}

/// Each broken rule is an `InvalidSchema` with its own text.
#[test]
fn each_broken_rule_has_its_message() {
    let one = |table: &str, name: &str| {
        Schema { columns: vec![col(name, ColumnType::Int, false)] }.validate(table).unwrap_err()
    };
    assert_eq!(one("", "id").to_string(), "invalid schema: table name cannot be empty");
    assert_eq!(
        one("1users", "id").to_string(),
        "invalid schema: table name '1users' must start with a letter or underscore"
    );
    assert_eq!(
        one("user-table", "id").to_string(),
        "invalid schema: table name 'user-table' contains invalid character '-'"
    );
    assert_eq!(
        one("users", "a b").to_string(),
        "invalid schema: column name 'a b' contains invalid character ' '"
    );
    assert!(matches!(one("users", ""), Error::InvalidSchema(_)));
    let twice = Schema {
        columns: vec![col("Name", ColumnType::Text, false), col("NAME", ColumnType::Int, true)],
    };
    assert_eq!(
        twice.validate("t").unwrap_err().to_string(),
        "invalid schema: duplicate column name 'NAME'"
    );
}

/// The length of a name is counted in bytes.
#[test]
fn longest_identifier_is_accepted() {
    let ok = "_".repeat(MAX_IDENT_LEN);
    let schema = Schema { columns: vec![col(&ok, ColumnType::Int, false)] };
    schema.validate(&ok).unwrap();
    assert_eq!(ColumnType::Int.as_str(), "INT");
    assert_eq!(ColumnType::Text.as_str(), "TEXT");
}
