//! The commands on an open store, each giving the text that is shown.

use vstd::prelude::*;

use crate::catalog::schema::{type_text, ColumnV};
use crate::catalog::tables::{DescriptorV, TableDescriptor};
use crate::cli::values::{parse_values, parsed_values, record_text, render_record};
use crate::error::{Error, ErrorV};
use crate::execution::logical::binder::bound;
use crate::execution::logical::optimizer::{optimize, optimized};
use crate::execution::logical::plan;
use crate::execution::logical::plan::LogicalPlanV;
use crate::execution::physical::executor::{execute, executed, is_ready, ready, room};
use crate::execution::physical::lower::{lower, lowered};
use crate::execution::physical::plan::PhysicalPlanV;
use crate::parser::ast::{Statement, StatementV};
use crate::parser::error::ParseError;
use crate::parser::parse;
use crate::parser::source::statements_of;
use crate::parser::the_statement;
use crate::storage::column_store::ColumnStore;
use crate::storage::model::{
    delete_steps, get_of, insert_steps, next_rid, row_items, row_scan_of, update_steps, StoreV,
};
use crate::storage::{Rid, Storage, ValueV};
use crate::text::{decimal, join2, join3, join4, join5, pad, padded, texts, u32_text, u64_text};

verus! {

/// A text that was computed, or why not, over views.
pub open spec fn text_outcome(r: Result<String, Error>) -> Result<Seq<char>, ErrorV> {
    match r {
        Ok(s) => Ok(s@),
        Err(e) => Err(e@),
    }
}

/// Lines that were computed, or why not, over views.
pub open spec fn lines_outcome(r: Result<Vec<String>, Error>) -> Result<Seq<Seq<char>>, ErrorV> {
    match r {
        Ok(lines) => Ok(texts(lines@)),
        Err(e) => Err(e@),
    }
}

/// What a command shows, and the store that it leaves.
pub type ShownV = (Result<Seq<char>, ErrorV>, StoreV);

// ---- single rows ----

/// Inserting a record given as text.
pub open spec fn row_inserted(store: StoreV, table: Seq<char>, values: Seq<char>) -> ShownV {
    match store.opened(table) {
        Err(e) => (Err(e), store),
        Ok(h) => match parsed_values(h.schema, values) {
            Err(e) => (Err(e), store),
            Ok(record) => {
                let steps = insert_steps(store, h, record);
                (
                    match steps.0 {
                        Some(e) => Err(e),
                        None => Ok(
                            "Inserted into '"@ + table + "' as rid "@ + decimal(
                                next_rid(store, h) as int,
                            ),
                        ),
                    },
                    store.after(steps.1),
                )
            },
        },
    }
}

/// Insert a record given as comma-separated values.
pub fn row_insert<S: Storage>(store: &mut S, table: &str, values: &str) -> (r: Result<
    String,
    Error,
>)
    requires
        old(store).store().opened(table@) matches Ok(h) ==> room(old(store).store(), h, 1),
    ensures
        (text_outcome(r), final(store).store()) == row_inserted(
            old(store).store(),
            table@,
            values@,
        ),
{
    let handle = match store.open_table(table) {
        Err(e) => {
            return Err(e);
        },
        Ok(h) => h,
    };
    let record = match parse_values(&handle.schema, values) {
        Err(e) => {
            return Err(e);
        },
        Ok(record) => record,
    };
    match store.insert(&handle, record) {
        Err(e) => Err(e),
        Ok(rid) => {
            let shown = u64_text(rid.0);
            Ok(join4("Inserted into '", table, "' as rid ", shown.as_str()))
        },
    }
}

/// A record with its identifier.
pub open spec fn row_line(rid: u64, schema: Seq<ColumnV>, record: Seq<ValueV>) -> Seq<char> {
    "rid "@ + decimal(rid as int) + ": "@ + record_text(schema, record)
}

/// Reading a record.
pub open spec fn row_read(store: StoreV, table: Seq<char>, rid: u64) -> Result<Seq<char>, ErrorV> {
    match store.opened(table) {
        Err(e) => Err(e),
        Ok(h) => match get_of(store.disk, h, rid) {
            Err(e) => Err(e),
            Ok(None) => Ok("rid "@ + decimal(rid as int) + ": not found"@),
            Ok(Some(record)) => Ok(row_line(rid, h.schema, record)),
        },
    }
}

/// Read a record by its identifier.
pub fn row_get<S: Storage>(store: &S, table: &str, rid: u64) -> (r: Result<String, Error>)
    requires
        store.store().opened(table@) matches Ok(h) ==> h.row_group_size > 0,
    ensures
        text_outcome(r) == row_read(store.store(), table@, rid),
{
    let handle = match store.open_table(table) {
        Err(e) => {
            return Err(e);
        },
        Ok(h) => h,
    };
    let shown = u64_text(rid);
    match store.get(&handle, Rid(rid)) {
        Err(e) => Err(e),
        Ok(None) => Ok(join3("rid ", shown.as_str(), ": not found")),
        Ok(Some(record)) => {
            let text = render_record(&handle.schema, &record);
            Ok(join4("rid ", shown.as_str(), ": ", text.as_str()))
        },
    }
}

/// Replacing a record by one given as text.
pub open spec fn row_updated(
    store: StoreV,
    table: Seq<char>,
    rid: u64,
    values: Seq<char>,
) -> ShownV {
    match store.opened(table) {
        Err(e) => (Err(e), store),
        Ok(h) => match parsed_values(h.schema, values) {
            Err(e) => (Err(e), store),
            Ok(record) => {
                let steps = update_steps(store, h, rid, record);
                (
                    match steps.0 {
                        Some(e) => Err(e),
                        None => Ok(
                            "rid "@ + decimal(rid as int) + ": updated as rid "@ + decimal(
                                next_rid(store, h) as int,
                            ),
                        ),
                    },
                    store.after(steps.1),
                )
            },
        },
    }
}

/// Replace a record by one given as comma-separated values.
pub fn row_update<S: Storage>(store: &mut S, table: &str, rid: u64, values: &str) -> (r: Result<
    String,
    Error,
>)
    requires
        old(store).store().opened(table@) matches Ok(h) ==> room(old(store).store(), h, 1),
    ensures
        (text_outcome(r), final(store).store()) == row_updated(
            old(store).store(),
            table@,
            rid,
            values@,
        ),
{
    let handle = match store.open_table(table) {
        Err(e) => {
            return Err(e);
        },
        Ok(h) => h,
    };
    let record = match parse_values(&handle.schema, values) {
        Err(e) => {
            return Err(e);
        },
        Ok(record) => record,
    };
    match store.update(&handle, Rid(rid), record) {
        Err(e) => Err(e),
        Ok(new_rid) => {
            let shown = u64_text(rid);
            let now = u64_text(new_rid.0);
            Ok(join4("rid ", shown.as_str(), ": updated as rid ", now.as_str()))
        },
    }
}

/// Deleting a record.
pub open spec fn row_deleted(store: StoreV, table: Seq<char>, rid: u64) -> ShownV {
    match store.opened(table) {
        Err(e) => (Err(e), store),
        Ok(h) => {
            let steps = delete_steps(store, h, rid);
            (
                match steps.0 {
                    Some(e) => Err(e),
                    None => Ok("rid "@ + decimal(rid as int) + ": deleted"@),
                },
                store.after(steps.1),
            )
        },
    }
}

/// Delete a record by its identifier.
pub fn row_delete<S: Storage>(store: &mut S, table: &str, rid: u64) -> (r: Result<String, Error>)
    requires
        old(store).store().opened(table@) matches Ok(h) ==> h.row_group_size > 0,
    ensures
        (text_outcome(r), final(store).store()) == row_deleted(old(store).store(), table@, rid),
{
    let handle = match store.open_table(table) {
        Err(e) => {
            return Err(e);
        },
        Ok(h) => h,
    };
    match store.delete(&handle, Rid(rid)) {
        Err(e) => Err(e),
        Ok(_) => {
            let shown = u64_text(rid);
            Ok(join3("rid ", shown.as_str(), ": deleted"))
        },
    }
}

// ---- tables ----

/// The names of the tables, one per line, or a line that says there are none.
pub open spec fn table_lines(store: StoreV) -> Seq<Seq<char>> {
    if store.catalog.tables.len() == 0 {
        seq!["(no tables)"@]
    } else {
        Seq::new(store.catalog.tables.len(), |i: int| store.catalog.tables[i].name)
    }
}

/// List the tables.
pub fn table_list<S: Storage>(store: &S) -> (r: Result<Vec<String>, Error>)
    ensures
        lines_outcome(r) == Ok::<Seq<Seq<char>>, ErrorV>(table_lines(store.store())),
{
    match store.list_tables() {
        Err(e) => Err(e),
        Ok(names) => {
            assert(texts(names@).len() == names@.len());
            if names.len() == 0 {
                let mut lines: Vec<String> = Vec::new();
                lines.push("(no tables)".to_string());
                assert(texts(lines@) =~= seq!["(no tables)"@]);
                Ok(lines)
            } else {
                Ok(names)
            }
        },
    }
}

/// The line of a column in the description of a table.
pub open spec fn column_line(c: ColumnV) -> Seq<char> {
    "  "@ + padded(c.name, 24) + " "@ + padded(type_text(c.ty), 6) + (" "@ + if c.nullable {
        "NULL"@
    } else {
        "NOT NULL"@
    })
}

/// The lines that describe a table.
pub open spec fn descriptor_lines(d: DescriptorV) -> Seq<Seq<char>> {
    seq![
        "Table:          "@ + d.name,
        "ID:             "@ + decimal(d.id as int),
        "Storage:        "@ + d.storage_track,
        "Row group size: "@ + decimal(d.row_group_size as int),
        "Columns:"@,
    ] + Seq::new(d.schema.len(), |i: int| column_line(d.schema[i]))
}

/// The lines that describe a table.
pub fn describe_lines(d: &TableDescriptor) -> (r: Vec<String>)
    ensures
        texts(r@) == descriptor_lines(d@),
{
    let id = u64_text(d.id);
    let size = u32_text(d.row_group_size);
    let mut lines: Vec<String> = Vec::new();
    lines.push(join2("Table:          ", d.name.as_str()));
    lines.push(join2("ID:             ", id.as_str()));
    lines.push(join2("Storage:        ", d.storage_track.as_str()));
    lines.push(join2("Row group size: ", size.as_str()));
    lines.push("Columns:".to_string());
    let ghost schema = d.schema@;
    let ghost head = texts(lines@);
    let mut i: usize = 0;
    assert(texts(lines@) =~= head + Seq::new(0, |j: int| column_line(schema[j])));
    while i < d.schema.columns.len()
        invariant
            i <= d.schema.columns@.len(),
            schema == d.schema@,
            texts(lines@) == head + Seq::new(i as nat, |j: int| column_line(schema[j])),
        decreases d.schema.columns.len() - i,
    {
        let c = &d.schema.columns[i];
        assert(schema[i as int] == c@);
        let name = pad(c.name.as_str(), 24);
        let ty = pad(c.ty.as_str(), 6);
        let tail = join2(
            " ",
            if c.nullable {
                "NULL"
            } else {
                "NOT NULL"
            },
        );
        let ghost before = texts(lines@);
        let line = join5("  ", name.as_str(), " ", ty.as_str(), tail.as_str());
        lines.push(line);
        i = i + 1;
        assert(texts(lines@) =~= before.push(line@));
        assert(texts(lines@) =~= head + Seq::new(i as nat, |j: int| column_line(schema[j])));
    }
    assert(texts(lines@) =~= descriptor_lines(d@));
    lines
}

/// Describing a table.
pub open spec fn table_described(store: StoreV, table: Seq<char>) -> Result<
    Seq<Seq<char>>,
    ErrorV,
> {
    match store.described(table) {
        Err(e) => Err(e),
        Ok(d) => Ok(descriptor_lines(d)),
    }
}

/// Describe a table.
pub fn table_describe<S: Storage>(store: &S, table: &str) -> (r: Result<Vec<String>, Error>)
    ensures
        lines_outcome(r) == table_described(store.store(), table@),
{
    match store.describe_table(table) {
        Err(e) => Err(e),
        Ok(d) => Ok(describe_lines(&d)),
    }
}

/// Dropping a table of the database at `path`.
pub open spec fn table_dropped(store: StoreV, table: Seq<char>, path: Seq<char>) -> ShownV {
    match store.catalog.dir_of(table) {
        Err(e) => (Err(e), store),
        Ok(_) => (
            Ok("Dropped table '"@ + table + "' from '"@ + path + "'"@),
            StoreV {
                catalog: store.catalog.without_table(table),
                ..store.after(store.catalog.drop_effects(table))
            },
        ),
    }
}

/// Drop a table of the database at `path`.
pub fn table_drop<S: Storage>(store: &mut S, table: &str, path: &str) -> (r: Result<String, Error>)
    ensures
        (text_outcome(r), final(store).store()) == table_dropped(
            old(store).store(),
            table@,
            path@,
        ),
{
    match store.drop_table(table) {
        Err(e) => Err(e),
        Ok(_) => Ok(join5("Dropped table '", table, "' from '", path, "'")),
    }
}

/// The lines of rows behind those in `done`, or the first error.
pub open spec fn scan_lines(
    done: Seq<Seq<char>>,
    schema: Seq<ColumnV>,
    items: Seq<Result<(u64, Seq<ValueV>), ErrorV>>,
) -> Result<Seq<Seq<char>>, ErrorV>
    decreases items.len(),
{
    if items.len() == 0 {
        Ok(done)
    } else {
        match items[0] {
            Err(e) => Err(e),
            Ok((rid, record)) => scan_lines(
                done.push(row_line(rid, schema, record)),
                schema,
                items.skip(1),
            ),
        }
    }
}

/// The rows of a table, one per line, or a line that says there are none.
pub open spec fn table_scanned(store: StoreV, table: Seq<char>) -> Result<Seq<Seq<char>>, ErrorV> {
    match store.opened(table) {
        Err(e) => Err(e),
        Ok(h) => match row_scan_of(store, h) {
            Err(e) => Err(e),
            Ok(s) => match scan_lines(Seq::empty(), h.schema, row_items(s, 0)) {
                Err(e) => Err(e),
                Ok(lines) => Ok(
                    if lines.len() == 0 {
                        seq!["(no rows)"@]
                    } else {
                        lines
                    },
                ),
            },
        },
    }
}

/// List the live rows of a table.
#[verifier::loop_isolation(false)]
pub fn table_scan<S: Storage>(store: &S, table: &str) -> (r: Result<Vec<String>, Error>)
    ensures
        lines_outcome(r) == table_scanned(store.store(), table@),
{
    let handle = match store.open_table(table) {
        Err(e) => {
            return Err(e);
        },
        Ok(h) => h,
    };
    let mut scan = match store.scan(&handle) {
        Err(e) => {
            return Err(e);
        },
        Ok(s) => s,
    };
    let ghost schema = handle.schema@;
    let ghost all = scan.items();
    let mut lines: Vec<String> = Vec::new();
    assert(texts(lines@) =~= Seq::empty());
    loop
        invariant
            scan.wf(),
            scan_lines(Seq::empty(), schema, all) == scan_lines(
                texts(lines@),
                schema,
                scan.items(),
            ),
        decreases scan.items().len(),
    {
        match scan.next() {
            None => {
                break;
            },
            Some(Err(e)) => {
                return Err(e);
            },
            Some(Ok((rid, record))) => {
                let shown = u64_text(rid.0);
                let text = render_record(&handle.schema, &record);
                let line = join4("rid ", shown.as_str(), ": ", text.as_str());
                let ghost before = texts(lines@);
                lines.push(line);
                assert(texts(lines@) =~= before.push(line@));
            },
        }
    }
    assert(texts(lines@).len() == lines@.len());
    if lines.len() == 0 {
        lines.push("(no rows)".to_string());
        assert(texts(lines@) =~= seq!["(no rows)"@]);
    }
    Ok(lines)
}

// ---- SQL ----

/// The plan of a statement, optimized where that is asked for.
pub open spec fn planned(store: StoreV, stmt: StatementV, optimize: bool) -> Result<
    LogicalPlanV,
    ErrorV,
> {
    match bound(store, stmt) {
        Err(e) => Err(e),
        Ok(p) => Ok(
            if optimize {
                optimized(p)
            } else {
                p
            },
        ),
    }
}

/// The logical and the physical plan of a statement, as text.
pub open spec fn explained(store: StoreV, stmt: StatementV, optimize: bool) -> Result<
    Seq<char>,
    ErrorV,
> {
    match planned(store, stmt, optimize) {
        Err(e) => Err(e),
        Ok(p) => Ok(
            "Logical Plan:\n"@ + p.text(Seq::empty()) + "\n\nPhysical Plan:\n"@ + lowered(p).text(
                Seq::empty(),
            ),
        ),
    }
}

/// Show the plans of a statement without running it.
pub fn explain<S: Storage>(store: &S, stmt: &Statement, optimize: bool) -> (r: Result<
    String,
    Error,
>)
    ensures
        text_outcome(r) == explained(store.store(), stmt@, optimize),
{
    let mut logical = match plan(stmt, store) {
        Err(e) => {
            return Err(e);
        },
        Ok(p) => p,
    };
    if optimize {
        logical = crate::execution::logical::optimizer::optimize(logical);
    }
    let physical = lower(&logical);
    let above = logical.to_string();
    let below = physical.to_string();
    Ok(join4("Logical Plan:\n", above.as_str(), "\n\nPhysical Plan:\n", below.as_str()))
}

/// The physical plan that a statement runs as.
pub open spec fn statement_plan(store: StoreV, stmt: StatementV) -> Result<PhysicalPlanV, ErrorV> {
    match planned(store, stmt, true) {
        Err(e) => Err(e),
        Ok(p) => Ok(lowered(p)),
    }
}

/// Running a statement: bind, optimize, lower, execute, and show the result.
pub open spec fn statement_run(store: StoreV, stmt: StatementV) -> ShownV {
    match statement_plan(store, stmt) {
        Err(e) => (Err(e), store),
        Ok(p) => {
            let (r, after) = executed(p, store);
            (
                match r {
                    Err(e) => Err(e),
                    Ok(result) => Ok(result.text()),
                },
                after,
            )
        },
    }
}

/// Run a statement and give the text of its result.
pub fn run_statement<S: Storage>(store: &mut S, stmt: &Statement) -> (r: Result<String, Error>)
    requires
        statement_plan(old(store).store(), stmt@) matches Ok(p) ==> ready(p, old(store).store()),
    ensures
        (text_outcome(r), final(store).store()) == statement_run(old(store).store(), stmt@),
{
    let logical = match plan(stmt, &*store) {
        Err(e) => {
            return Err(e);
        },
        Ok(p) => optimize(p),
    };
    let physical = lower(&logical);
    match execute(&physical, store) {
        Err(e) => Err(e),
        Ok(result) => Ok(result.to_string()),
    }
}

/// Whether a statement can run: the identifiers that it needs are left.
pub fn can_run(store: &ColumnStore, stmt: &Statement) -> (r: bool)
    ensures
        r == (statement_plan(store.store(), stmt@) matches Ok(p) ==> ready(p, store.store())),
{
    match plan(stmt, store) {
        Err(_) => true,
        Ok(p) => {
            let logical = optimize(p);
            let physical = lower(&logical);
            is_ready(&physical, store, store.next_table_id())
        },
    }
}

/// Why a query gave no result: its text is not a statement, or it failed.
#[derive(Debug)]
pub enum Failure {
    Parse(ParseError),
    Engine(Error),
}

/// The view of a [`Failure`].
pub enum FailureV {
    Parse(Seq<char>),
    Engine(ErrorV),
}

/// What a query shows, and the store that it leaves; nothing where the
/// identifiers that it needs are not left.
pub open spec fn query_run(store: StoreV, sql: Seq<char>) -> (
    Option<Result<Seq<char>, FailureV>>,
    StoreV,
) {
    match the_statement(statements_of(sql)) {
        Err(m) => (Some(Err(FailureV::Parse(m))), store),
        Ok(stmt) => if statement_plan(store, stmt) matches Ok(p) && !ready(p, store) {
            (None, store)
        } else {
            let (r, after) = statement_run(store, stmt);
            (
                Some(
                    match r {
                        Err(e) => Err(FailureV::Engine(e)),
                        Ok(text) => Ok(text),
                    },
                ),
                after,
            )
        },
    }
}

/// What a query gave back, over views.
pub open spec fn query_outcome(r: Option<Result<String, Failure>>) -> Option<
    Result<Seq<char>, FailureV>,
> {
    match r {
        None => None,
        Some(Ok(s)) => Some(Ok(s@)),
        Some(Err(Failure::Parse(e))) => Some(Err(FailureV::Parse(e@))),
        Some(Err(Failure::Engine(e))) => Some(Err(FailureV::Engine(e@))),
    }
}

/// Run one SQL statement given as text: parse, bind, optimize, lower, execute,
/// and show the result. Gives `None`, with the store as it was, where the
/// identifiers that the statement needs are not left.
pub fn query(store: &mut ColumnStore, sql: &str) -> (r: Option<Result<String, Failure>>)
    ensures
        (query_outcome(r), final(store).store()) == query_run(old(store).store(), sql@),
{
    let stmt = match parse(sql) {
        Err(e) => {
            return Some(Err(Failure::Parse(e)));
        },
        Ok(s) => s,
    };
    if !can_run(&*store, &stmt) {
        return None;
    }
    match run_statement(store, &stmt) {
        Err(e) => Some(Err(Failure::Engine(e))),
        Ok(text) => Some(Ok(text)),
    }
}

} // verus!
