//! Text to values and back, for the commands on single rows.
//!
//! Only conversion happens here: how many tokens there are, and what value each
//! stands for. Whether a value may be NULL is checked by storage.

use vstd::prelude::*;

use crate::catalog::schema::{ColumnType, ColumnV, Schema};
use crate::error::{outcome, Error, ErrorV};
use crate::execution::physical::result::value_text;
use crate::steps::{collect, collect_from};
use crate::storage::{values_view, Record, Value, ValueV};
use crate::text::{
    decimal, i64_value, join, join3, join4, join5, joined, lower_text, parse_i64,
    same_ignoring_case, split, split_at, texts, trim, trimmed, usize_text,
};

verus! {

/// The value that a token stands for in a column. `NULL` in any case is the
/// null value.
pub open spec fn token_value(token: Seq<char>, c: ColumnV) -> Result<ValueV, ErrorV> {
    let t = trimmed(token);
    if lower_text(t) == lower_text("NULL"@) {
        Ok(ValueV::Null)
    } else {
        match c.ty {
            ColumnType::Int => match i64_value(t) {
                Some(n) => Ok(ValueV::Int(n)),
                None => Err(
                    ErrorV::InvalidValue(
                        "column '"@ + c.name + "' expects an INT, got '"@ + t + "'"@,
                    ),
                ),
            },
            ColumnType::Text => Ok(ValueV::Text(t)),
        }
    }
}

/// The value of the `i`th token.
pub open spec fn token_rule(tokens: Seq<Seq<char>>, schema: Seq<ColumnV>) -> spec_fn(int) -> Result<
    ValueV,
    ErrorV,
> {
    |i: int| token_value(tokens[i], schema[i])
}

/// The record that comma-separated values stand for.
pub open spec fn parsed_values(schema: Seq<ColumnV>, s: Seq<char>) -> Result<Seq<ValueV>, ErrorV> {
    let tokens = split_at(s, ',');
    if tokens.len() != schema.len() {
        Err(
            ErrorV::InvalidValue(
                "expected "@ + decimal(schema.len() as int)
                    + " value(s) to match the schema, got "@ + decimal(tokens.len() as int),
            ),
        )
    } else {
        collect(tokens.len() as int, token_rule(tokens, schema))
    }
}

/// Parse `1,Alice,NULL` into a record, token by token onto the columns. Tokens
/// are split on commas, so a text cannot hold a comma.
#[verifier::loop_isolation(false)]
pub fn parse_values(schema: &Schema, s: &str) -> (r: Result<Record, Error>)
    ensures
        outcome(r) == parsed_values(schema@, s@),
{
    let tokens = split(s, ',');
    let ghost pieces = texts(tokens@);
    if tokens.len() != schema.columns.len() {
        let expected = usize_text(schema.columns.len());
        let got = usize_text(tokens.len());
        let m = join4(
            "expected ",
            expected.as_str(),
            " value(s) to match the schema, got ",
            got.as_str(),
        );
        return Err(Error::invalid_value(m.as_str()));
    }
    let ghost rule = token_rule(pieces, schema@);
    let ghost n = tokens@.len() as int;
    let mut values: Vec<Value> = Vec::new();
    assert(values_view(values@) =~= Seq::empty());
    let mut i: usize = 0;
    while i < tokens.len()
        invariant
            i <= tokens@.len(),
            collect(n, rule) == collect_from(values_view(values@), i as int, n, rule),
        decreases tokens.len() - i,
    {
        let col = &schema.columns[i];
        assert(schema@[i as int] == col@);
        let t = trim(tokens[i].as_str());
        let value = if same_ignoring_case(t.as_str(), "NULL") {
            Value::Null
        } else {
            match col.ty {
                ColumnType::Int => match parse_i64(t.as_str()) {
                    Some(k) => Value::Int(k),
                    None => {
                        let m = join5(
                            "column '",
                            col.name.as_str(),
                            "' expects an INT, got '",
                            t.as_str(),
                            "'",
                        );
                        return Err(Error::invalid_value(m.as_str()));
                    },
                },
                ColumnType::Text => Value::Text(t),
            }
        };
        let ghost before = values_view(values@);
        values.push(value);
        assert(values_view(values@) =~= before.push(value@));
        i = i + 1;
    }
    Ok(Record { values })
}

/// Render one value for people. NULL prints as `NULL`.
pub fn render_value(value: &Value) -> (r: String)
    ensures
        r@ == value_text(value@),
{
    crate::execution::physical::result::render_value(value)
}

/// How many columns of a record are shown: those that have a value.
pub open spec fn shown_columns(schema: Seq<ColumnV>, record: Seq<ValueV>) -> int {
    if schema.len() < record.len() {
        schema.len() as int
    } else {
        record.len() as int
    }
}

/// A record as `col=value, col=value`, in the order of the columns.
pub open spec fn record_text(schema: Seq<ColumnV>, record: Seq<ValueV>) -> Seq<char> {
    joined(
        Seq::new(
            shown_columns(schema, record) as nat,
            |i: int| schema[i].name + "="@ + value_text(record[i]),
        ),
        ", "@,
    )
}

/// Render a record as `col=value, col=value`, in the order of the columns.
pub fn render_record(schema: &Schema, record: &Record) -> (r: String)
    ensures
        r@ == record_text(schema@, record@),
{
    let ghost columns = schema@;
    let ghost row = record@;
    let shown = if schema.columns.len() < record.values.len() {
        schema.columns.len()
    } else {
        record.values.len()
    };
    let mut parts: Vec<String> = Vec::new();
    let mut i: usize = 0;
    while i < shown
        invariant
            i <= shown,
            shown <= schema.columns@.len(),
            shown <= record.values@.len(),
            columns == schema@,
            row == record@,
            parts@.len() == i,
            forall|j: int|
                0 <= j < i ==> (#[trigger] parts@[j])@ == columns[j].name + "="@ + value_text(
                    row[j],
                ),
        decreases shown - i,
    {
        let value = render_value(&record.values[i]);
        assert(columns[i as int].name == schema.columns@[i as int].name@);
        parts.push(join3(schema.columns[i].name.as_str(), "=", value.as_str()));
        i = i + 1;
    }
    assert(texts(parts@) =~= Seq::new(
        shown_columns(columns, row) as nat,
        |i: int| columns[i].name + "="@ + value_text(row[i]),
    ));
    join(&parts, ", ")
}

} // verus!
