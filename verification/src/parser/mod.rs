//! SQL front end: turn a query string into a [`ast::Statement`].
//!
//! The `sqlparser` crate reads the text, [`source`] turns its tree into plain
//! values, and [`lower`] turns those into a statement. What lies outside the
//! supported subset is rejected. Supported are:
//! - `CREATE TABLE name (col INT|TEXT [NOT NULL], ...)`
//! - `INSERT INTO name VALUES (int|'text'|NULL, ...)`: a single row
//! - `SELECT */cols FROM name [WHERE cond] [ORDER BY col [ASC|DESC]] [LIMIT n]`
//! - `UPDATE name SET col = value, ... [WHERE cond]`
//! - `DELETE FROM name [WHERE cond]`
//! - `DROP TABLE name`, `SHOW TABLES`, `DESCRIBE [EXTENDED] name`
//!
//! where `cond` combines `= != < <= > >=` with `AND`/`OR` over columns and
//! literals, with parentheses.

pub mod ast;
pub mod error;
pub mod laws;
pub mod lower;
pub mod source;
pub mod tree;

use vstd::prelude::*;

use crate::parser::ast::{Statement, StatementV};
use crate::parser::error::ParseError;
use crate::parser::lower::{lower_statement, lowered_statement, parse_outcome};
use crate::parser::source::{read_statements, statements_of};
use crate::parser::tree::{views, SqlStatement, SqlStatementV};

verus! {

/// The statement of a text that was read: there must be exactly one.
pub open spec fn the_statement(read: Result<Seq<SqlStatementV>, Seq<char>>) -> Result<
    StatementV,
    Seq<char>,
> {
    match read {
        Err(message) => Err(message),
        Ok(statements) => if statements.len() == 0 {
            Err("empty input: expected a SQL statement"@)
        } else if statements.len() > 1 {
            Err("expected a single SQL statement per query"@)
        } else {
            lowered_statement(statements[0])
        },
    }
}

/// Take the one statement out of a list and lower it.
pub fn single_statement(statements: &Vec<SqlStatement>) -> (r: Result<Statement, ParseError>)
    ensures
        parse_outcome(r) == the_statement(Ok(views(statements@))),
{
    if statements.len() == 0 {
        return Err(ParseError::new("empty input: expected a SQL statement"));
    }
    if statements.len() > 1 {
        return Err(ParseError::new("expected a single SQL statement per query"));
    }
    assert(views(statements@)[0] == statements@[0]@);
    lower_statement(&statements[0])
}

/// Parse a single SQL statement.
///
/// Fails on empty input, on more than one statement, on a syntax error, and on
/// anything outside the supported subset.
pub fn parse(sql: &str) -> (r: Result<Statement, ParseError>)
    ensures
        parse_outcome(r) == the_statement(statements_of(sql@)),
{
    match read_statements(sql) {
        Err(message) => Err(ParseError::new(message.as_str())),
        Ok(statements) => single_statement(&statements),
    }
}

} // verus!
