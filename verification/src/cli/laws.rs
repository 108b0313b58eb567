//! What the commands take and show.

use vstd::prelude::*;

use crate::catalog::metadata::StatusV;
use crate::catalog::schema::{ColumnType, ColumnV};
use crate::catalog::tables::DescriptorV;
use crate::cli::bench::{bench_columns, draw_below, generated, needs_database, payload, wanted};
use crate::cli::commands::{
    explained, query_run, row_deleted, row_inserted, row_line, row_read, row_updated, scan_lines,
    statement_run, table_described, table_dropped, table_lines, table_scanned, FailureV,
};
use crate::cli::doctor::{
    catalog_checked, column_text, columns_text, database_report, diagnosed, head_lines,
    opening_checked, table_line, table_name, tells, verdict_error, ReportV,
};
use crate::cli::values::{parsed_values, record_text, token_rule, token_value};
use crate::error::ErrorV;
use crate::execution::change_laws::{lemma_matching, sound_filter};
use crate::execution::logical::binder::{bound, filter_error};
use crate::execution::logical::optimizer::optimized;
use crate::execution::physical::executor::{executed, ready};
use crate::execution::physical::lower::lowered;
use crate::execution::physical::plan::PhysicalPlanV;
use crate::execution::physical::result::value_text;
use crate::execution::statement_laws::lemma_picked;
use crate::parser::ast::{AssignmentV, ColumnDefV, ExprV, StatementV};
use crate::parser::source::statements_of;
use crate::parser::the_statement;
use crate::steps::{lemma_collect_all, lemma_collected};
use crate::storage::definition_laws::dropped_store;
use crate::storage::model::{HandleV, StoreV};
use crate::storage::record_laws::law_scan_lists_what_can_be_read;
use crate::storage::scan_laws::{law_row_scan, live_rows};
use crate::storage::table_laws::{law_delete, law_get, law_insert, law_update};
use crate::storage::table_model::{can_take, represents, TableV};
use crate::storage::ValueV;
use crate::text::{decimal, i64_value, joined, lower_text, padded, trimmed};
use crate::text_laws::{law_joining, law_splitting_undoes_joining};

verus! {

// ---- values on the command line ----

/// A value is taken without the white space around it: NULL in any case is NULL;
/// else it is the text itself for a TEXT column, and for an INT column the
/// integer that it spells, or an error where it spells none.
pub proof fn law_tokens(token: Seq<char>, c: ColumnV)
    ensures
        ({
            let s = trimmed(token);
            let null = lower_text(s) == seq!['n', 'u', 'l', 'l'];
            &&& null ==> token_value(token, c) == Ok::<ValueV, ErrorV>(ValueV::Null)
            &&& !null && c.ty == ColumnType::Text ==> token_value(token, c) == Ok::<ValueV, ErrorV>(
                ValueV::Text(s),
            )
            &&& !null && c.ty == ColumnType::Int && i64_value(s) is Some ==> token_value(token, c)
                == Ok::<ValueV, ErrorV>(ValueV::Int(i64_value(s)->0))
            &&& !null && c.ty == ColumnType::Int && i64_value(s) is None ==> token_value(token, c)
                == Err::<ValueV, ErrorV>(
                ErrorV::InvalidValue(
                    "column '"@ + c.name + "' expects an INT, got '"@ + s + "'"@,
                ),
            )
        }),
{
    reveal_strlit("NULL");
    assert(lower_text("NULL"@) =~= seq!['n', 'u', 'l', 'l']);
}

/// A record is given as one value for each column, in order, with commas
/// between; it is refused where the number differs or a value cannot be taken.
pub proof fn law_values(schema: Seq<ColumnV>, pieces: Seq<Seq<char>>)
    requires
        pieces.len() > 0,
        forall|i: int| 0 <= i < pieces.len() ==> !(#[trigger] pieces[i]).contains(','),
    ensures
        ({
            let read = parsed_values(schema, joined(pieces, seq![',']));
            let fit = pieces.len() == schema.len() && forall|i: int|
                0 <= i < pieces.len() ==> token_value(#[trigger] pieces[i], schema[i]) is Ok;
            &&& fit ==> read == Ok::<Seq<ValueV>, ErrorV>(
                Seq::new(pieces.len(), |i: int| token_value(pieces[i], schema[i])->Ok_0),
            )
            &&& !fit ==> read is Err
            &&& pieces.len() != schema.len() ==> read == Err::<Seq<ValueV>, ErrorV>(
                ErrorV::InvalidValue(
                    "expected "@ + decimal(schema.len() as int)
                        + " value(s) to match the schema, got "@ + decimal(pieces.len() as int),
                ),
            )
        }),
{
    law_splitting_undoes_joining(pieces, ',');
    let n = pieces.len() as int;
    let rule = token_rule(pieces, schema);
    if pieces.len() == schema.len() {
        if forall|i: int|
            0 <= i < pieces.len() ==> token_value(#[trigger] pieces[i], schema[i]) is Ok {
            let all = Seq::new(pieces.len(), |i: int| token_value(pieces[i], schema[i])->Ok_0);
            assert forall|i: int| 0 <= i < n implies #[trigger] rule(i) == Ok::<ValueV, ErrorV>(
                all[i],
            ) by {
                assert(token_value(pieces[i], schema[i]) is Ok);
            }
            lemma_collect_all(n, rule, all);
        } else {
            lemma_collected(n, rule);
            let i = choose|i: int|
                0 <= i < pieces.len() && !(token_value(#[trigger] pieces[i], schema[i]) is Ok);
            assert(rule(i) is Err);
        }
    }
}

/// A record is shown column by column, in order, as name, equals sign and value,
/// with commas between.
pub proof fn law_record_text(c: ColumnV, v: ValueV, schema: Seq<ColumnV>, record: Seq<ValueV>)
    requires
        schema.len() == record.len(),
    ensures
        record_text(seq![c], seq![v]) == c.name + "="@ + value_text(v),
        schema.len() > 0 ==> record_text(seq![c] + schema, seq![v] + record) == c.name + "="@
            + value_text(v) + ", "@ + record_text(schema, record),
{
    let shown = |s: Seq<ColumnV>, r: Seq<ValueV>|
        Seq::new(s.len(), |i: int| s[i].name + "="@ + value_text(r[i]));
    let first = c.name + "="@ + value_text(v);
    law_joining(first, shown(schema, record), ", "@);
    assert(shown(seq![c], seq![v]) =~= seq![first]);
    assert(shown(seq![c] + schema, seq![v] + record) =~= seq![first] + shown(schema, record));
    assert(record_text(seq![c], seq![v]) == joined(shown(seq![c], seq![v]), ", "@));
    assert(record_text(schema, record) == joined(shown(schema, record), ", "@));
    assert(record_text(seq![c] + schema, seq![v] + record) == joined(
        shown(seq![c] + schema, seq![v] + record),
        ", "@,
    ));
}

// ---- rows ----

/// `row insert` takes the values, puts the record behind all others and says
/// under which identifier; where the values cannot be taken nothing changes.
pub proof fn law_row_insert(store: StoreV, h: HandleV, t: TableV, values: Seq<char>)
    requires
        represents(store, h, t),
    ensures
        parsed_values(t.schema, values) matches Err(e) ==> row_inserted(store, h.name, values) == (
            Err::<Seq<char>, ErrorV>(e),
            store,
        ),
        parsed_values(t.schema, values) is Ok && can_take(t, parsed_values(t.schema, values)->Ok_0)
            ==> {
            let record = parsed_values(t.schema, values)->Ok_0;
            let (shown, after) = row_inserted(store, h.name, values);
            &&& shown == Ok::<Seq<char>, ErrorV>(
                "Inserted into '"@ + h.name + "' as rid "@ + decimal(t.rows.len() as int),
            )
            &&& represents(
                after,
                h,
                TableV { rows: t.rows.push(record), deleted: t.deleted.push(false), ..t },
            )
        },
{
    if let Ok(record) = parsed_values(t.schema, values) {
        if can_take(t, record) {
            law_insert(store, h, t, record);
        }
    }
}

/// `row get` shows the record that is read under an identifier, or that there is
/// none.
pub proof fn law_row_get(store: StoreV, h: HandleV, t: TableV, rid: u64)
    requires
        represents(store, h, t),
        rid < (u32::MAX + 1) * t.row_group_size,
    ensures
        rid < t.rows.len() && !t.deleted[rid as int] ==> row_read(store, h.name, rid) == Ok::<
            Seq<char>,
            ErrorV,
        >("rid "@ + decimal(rid as int) + ": "@ + record_text(t.schema, t.rows[rid as int])),
        rid >= t.rows.len() || t.deleted[rid as int] ==> row_read(store, h.name, rid) == Ok::<
            Seq<char>,
            ErrorV,
        >("rid "@ + decimal(rid as int) + ": not found"@),
{
    law_get(store, h, t, rid);
}

/// `row update` replaces the record by one behind all others and says under which
/// identifier that is.
pub proof fn law_row_update(store: StoreV, h: HandleV, t: TableV, rid: u64, values: Seq<char>)
    requires
        represents(store, h, t),
    ensures
        parsed_values(t.schema, values) matches Err(e) ==> row_updated(store, h.name, rid, values)
            == (Err::<Seq<char>, ErrorV>(e), store),
        parsed_values(t.schema, values) is Ok && can_take(t, parsed_values(t.schema, values)->Ok_0)
            && rid < t.rows.len() && !t.deleted[rid as int] ==> {
            let record = parsed_values(t.schema, values)->Ok_0;
            let (shown, after) = row_updated(store, h.name, rid, values);
            &&& shown == Ok::<Seq<char>, ErrorV>(
                "rid "@ + decimal(rid as int) + ": updated as rid "@ + decimal(t.rows.len() as int),
            )
            &&& represents(
                after,
                h,
                TableV {
                    rows: t.rows.push(record),
                    deleted: t.deleted.update(rid as int, true).push(false),
                    ..t
                },
            )
        },
{
    if let Ok(record) = parsed_values(t.schema, values) {
        if can_take(t, record) && rid < t.rows.len() && !t.deleted[rid as int] {
            law_update(store, h, t, rid, record);
        }
    }
}

/// `row delete` deletes the record, and no other, and says so.
pub proof fn law_row_delete(store: StoreV, h: HandleV, t: TableV, rid: u64)
    requires
        represents(store, h, t),
        rid < t.rows.len(),
        !t.deleted[rid as int],
    ensures
        ({
            let (shown, after) = row_deleted(store, h.name, rid);
            &&& shown == Ok::<Seq<char>, ErrorV>("rid "@ + decimal(rid as int) + ": deleted"@)
            &&& represents(
                after,
                h,
                TableV { deleted: t.deleted.update(rid as int, true), ..t },
            )
        }),
{
    law_delete(store, h, t, rid);
}

// ---- tables ----

/// `table list` shows the names of the tables, one per line, or that there are
/// none.
pub proof fn law_table_list(store: StoreV)
    ensures
        store.catalog.tables.len() == 0 ==> table_lines(store) == seq!["(no tables)"@],
        store.catalog.tables.len() > 0 ==> table_lines(store).len() == store.catalog.tables.len()
            && forall|i: int|
            0 <= i < store.catalog.tables.len() ==> #[trigger] table_lines(store)[i]
                == store.catalog.tables[i].name,
{
}

/// `table describe` shows the name, the identifier, the storage and the size of
/// row groups, then a line for each column, in order: its name, its type and
/// whether it takes NULL.
pub proof fn law_table_describe(store: StoreV, table: Seq<char>, d: DescriptorV, i: int)
    requires
        store.described(table) == Ok::<DescriptorV, ErrorV>(d),
        0 <= i < d.schema.len(),
    ensures
        ({
            let shown = table_described(store, table);
            let lines = shown->Ok_0;
            let c = d.schema[i];
            &&& shown is Ok
            &&& lines.len() == d.schema.len() + 5
            &&& lines[0] == "Table:          "@ + d.name
            &&& lines[1] == "ID:             "@ + decimal(d.id as int)
            &&& lines[2] == "Storage:        "@ + d.storage_track
            &&& lines[3] == "Row group size: "@ + decimal(d.row_group_size as int)
            &&& lines[4] == "Columns:"@
            &&& lines[i + 5] == "  "@ + padded(c.name, 24) + " "@ + padded(
                if c.ty == ColumnType::Int {
                    "INT"@
                } else {
                    "TEXT"@
                },
                6,
            ) + (" "@ + if c.nullable {
                "NULL"@
            } else {
                "NOT NULL"@
            })
        }),
{
}

/// The lines of rows without errors.
proof fn lemma_scan_lines(
    done: Seq<Seq<char>>,
    schema: Seq<ColumnV>,
    items: Seq<Result<(u64, Seq<ValueV>), ErrorV>>,
)
    requires
        forall|i: int| 0 <= i < items.len() ==> (#[trigger] items[i]) is Ok,
    ensures
        scan_lines(done, schema, items) == Ok::<Seq<Seq<char>>, ErrorV>(
            done + Seq::new(
                items.len(),
                |i: int|
                    "rid "@ + decimal(items[i]->Ok_0.0 as int) + ": "@ + record_text(
                        schema,
                        items[i]->Ok_0.1,
                    ),
            ),
        ),
    decreases items.len(),
{
    let lines = Seq::new(
        items.len(),
        |i: int|
            "rid "@ + decimal(items[i]->Ok_0.0 as int) + ": "@ + record_text(
                schema,
                items[i]->Ok_0.1,
            ),
    );
    if items.len() == 0 {
        assert(done + lines =~= done);
    } else {
        let rest = items.skip(1);
        assert forall|i: int| 0 <= i < rest.len() implies (#[trigger] rest[i]) is Ok by {
            assert(rest[i] == items[i + 1]);
        }
        assert(items[0] is Ok);
        let (rid, record) = items[0]->Ok_0;
        lemma_scan_lines(done.push(row_line(rid, schema, record)), schema, rest);
        assert(done.push(row_line(rid, schema, record)) + Seq::new(
            rest.len(),
            |i: int|
                "rid "@ + decimal(rest[i]->Ok_0.0 as int) + ": "@ + record_text(
                    schema,
                    rest[i]->Ok_0.1,
                ),
        ) =~= done + lines);
    }
}

/// `table scan` shows a line for each record that can be read, in the order of
/// their identifiers, or that there are none.
pub proof fn law_table_scan(store: StoreV, h: HandleV, t: TableV)
    requires
        represents(store, h, t),
    ensures
        ({
            let items = live_rows(t, 0);
            let shown = table_scanned(store, h.name);
            &&& items.len() == 0 ==> shown == Ok::<Seq<Seq<char>>, ErrorV>(seq!["(no rows)"@])
            &&& items.len() > 0 ==> shown is Ok && shown->Ok_0.len() == items.len() && forall|
                i: int,
            |
                0 <= i < items.len() ==> items[i] is Ok && #[trigger] shown->Ok_0[i] == "rid "@
                    + decimal(items[i]->Ok_0.0 as int) + ": "@ + record_text(
                    t.schema,
                    items[i]->Ok_0.1,
                )
        }),
{
    law_row_scan(store, h, t);
    assert(0 < (u32::MAX + 1) * t.row_group_size) by (nonlinear_arith)
        requires
            t.row_group_size > 0,
    ;
    law_scan_lists_what_can_be_read(store, h, t, 0);
    let items = live_rows(t, 0);
    lemma_scan_lines(Seq::empty(), h.schema, items);
    let lines = Seq::new(
        items.len(),
        |i: int|
            "rid "@ + decimal(items[i]->Ok_0.0 as int) + ": "@ + record_text(
                h.schema,
                items[i]->Ok_0.1,
            ),
    );
    assert(Seq::<Seq<char>>::empty() + lines =~= lines);
}

/// `table drop` drops a table that is there and says from where; one that is not
/// there is an error, and then nothing changes.
pub proof fn law_table_drop(store: StoreV, table: Seq<char>, path: Seq<char>)
    ensures
        store.catalog.dir_of(table) is Ok ==> table_dropped(store, table, path) == (
            Ok::<Seq<char>, ErrorV>("Dropped table '"@ + table + "' from '"@ + path + "'"@),
            dropped_store(store, table),
        ),
        store.catalog.dir_of(table) is Err ==> table_dropped(store, table, path) == (
            Err::<Seq<char>, ErrorV>(ErrorV::TableNotFound(table)),
            store,
        ),
{
}

/// `explain` shows the logical plan and under it the physical plan that it
/// becomes; optimized where that is asked for, and as it was bound where not.
pub proof fn law_explain(store: StoreV, stmt: StatementV, optimize: bool)
    ensures
        bound(store, stmt) matches Err(e) ==> explained(store, stmt, optimize) == Err::<
            Seq<char>,
            ErrorV,
        >(e),
        bound(store, stmt) matches Ok(p) ==> {
            let plan = if optimize {
                optimized(p)
            } else {
                p
            };
            explained(store, stmt, optimize) == Ok::<Seq<char>, ErrorV>(
                "Logical Plan:\n"@ + plan.text(Seq::empty()) + "\n\nPhysical Plan:\n"@ + lowered(
                    plan,
                ).text(Seq::empty()),
            )
        },
{
}

// ---- doctor ----

/// The report on a database is good exactly where it is there and ready. A good
/// one starts with `[ok]` and names the format and the date; any other is one or
/// two lines that start with `[!!]` and say what is wrong.
pub proof fn law_doctor_on_a_database(path: Seq<char>, exists: bool, status: StatusV)
    ensures
        ({
            let r = database_report(path, exists, status);
            &&& r.healthy <==> exists && status is Ready
            &&& r.lines.len() > 0
            &&& r.lines[0].take(5) == if r.healthy {
                seq!['[', 'o', 'k', ']', ' ']
            } else {
                seq!['[', '!', '!', ']', ' ']
            }
            &&& exists && status is Ready ==> r.lines == seq![
                "[ok] database found at '"@ + path + "'"@,
                "     format version: "@ + decimal(status->Ready_format_version as int)
                    + ", created: "@ + status->created,
            ]
            &&& !exists ==> r.lines == seq![
                "[!!] database not found at '"@ + path + "'"@,
                "     run `balik-cli init --db "@ + path + "` to create one"@,
            ]
        }),
{
    reveal_strlit("[ok] database found at '");
    reveal_strlit("[!!] database not found at '");
    reveal_strlit("[!!] '");
    reveal_strlit("[!!] balik.meta at '");
    reveal_strlit("[!!] database at '");
    let r = database_report(path, exists, status);
    assert(r.lines[0].take(5) =~= if r.healthy {
        seq!['[', 'o', 'k', ']', ' ']
    } else {
        seq!['[', '!', '!', ']', ' ']
    });
}

/// The doctor fails exactly where something is wrong.
pub proof fn law_doctor_verdict(healthy: bool)
    ensures
        verdict_error(healthy) is None <==> healthy,
{
}

/// The columns of a table are shown in order, each with its name and type.
pub proof fn law_doctor_columns(c: ColumnV, schema: Seq<ColumnV>)
    ensures
        column_text(c) == c.name + " "@ + if c.ty == ColumnType::Int {
            "INT"@
        } else {
            "TEXT"@
        },
        columns_text(seq![c]) == column_text(c),
        schema.len() > 0 ==> columns_text(seq![c] + schema) == column_text(c) + ", "@
            + columns_text(schema),
{
    let shown = |s: Seq<ColumnV>| Seq::new(s.len(), |i: int| column_text(s[i]));
    law_joining(column_text(c), shown(schema), ", "@);
    assert(shown(seq![c]) =~= seq![column_text(c)]);
    assert(shown(seq![c] + schema) =~= seq![column_text(c)] + shown(schema));
    assert(columns_text(seq![c]) == joined(shown(seq![c]), ", "@));
    assert(columns_text(schema) == joined(shown(schema), ", "@));
    assert(columns_text(seq![c] + schema) == joined(shown(seq![c] + schema), ", "@));
}

/// The report starts with what runs: the version, the format and the machine.
pub proof fn law_doctor_head(version: Seq<char>, os: Seq<char>, arch: Seq<char>)
    ensures
        ({
            let lines = head_lines(version, os, arch);
            &&& lines.len() == 5
            &&& lines[0] == "balik-db doctor"@
            &&& lines[1] == "==============="@
            &&& lines[2] == "[ok] balik-db version: "@ + version
            &&& lines[3] == "[ok] supported format version: "@ + decimal(1)
            &&& lines[4] == "[ok] OS: "@ + os + " ("@ + arch + ")"@
        }),
{
}

// ---- bench ----

/// The number of rows is the one that is asked for; else as many as fit in the
/// size that is asked for, at 314 bytes a row, and at least one.
pub proof fn law_bench_rows(rows: u64, bytes: u64, s: Seq<char>, m: Seq<char>)
    ensures
        wanted(Some(rows), s, Ok(bytes)) == Ok::<u64, ErrorV>(rows),
        bytes < 314 ==> wanted(None, s, Ok(bytes)) == Ok::<u64, ErrorV>(1),
        bytes >= 314 ==> wanted(None, s, Ok(bytes)) == Ok::<u64, ErrorV>(bytes / 314),
        wanted(None, s, Err(m)) == Err::<u64, ErrorV>(
            ErrorV::InvalidValue("invalid size '"@ + s + "': "@ + m),
        ),
{
    assert(crate::cli::bench::EST_BYTES_PER_ROW == 314);
}

/// The bench table has four INT columns and three TEXT columns, none of which
/// takes NULL.
pub proof fn law_bench_columns(i: int)
    requires
        0 <= i < 7,
    ensures
        bench_columns().len() == 7,
        bench_columns()[i].name == seq![
            "id"@,
            "sort_key"@,
            "filter_a"@,
            "filter_b"@,
            "payload1"@,
            "payload2"@,
            "payload3"@,
        ][i],
        bench_columns()[i].ty == if i < 4 {
            ColumnType::Int
        } else {
            ColumnType::Text
        },
        !bench_columns()[i].nullable,
{
}

/// A generated text has as many characters as it was asked for.
proof fn lemma_payload(state: u64, word: u32, n: int)
    requires
        0 <= n,
    ensures
        payload(state, word, n).0.len() == n,
    decreases n,
{
    if n > 0 {
        lemma_payload(state, word, n - 1);
    }
}

/// A generated row holds its number, three drawn integers, the first below a
/// thousand million and the others below a million, and three texts of 90
/// characters, drawn one after the other.
pub proof fn law_bench_records(id: u64, state: u64, word: u32)
    ensures
        ({
            let row = generated(id, state, word).0;
            let key = draw_below(state, 1_000_000_000);
            let a = draw_below(key.1, 1_000_000);
            let b = draw_below(a.1, 1_000_000);
            &&& row.len() == 7
            &&& row[0] == ValueV::Int(id as i64)
            &&& row[1] == ValueV::Int(key.0 as i64)
            &&& row[2] == ValueV::Int(a.0 as i64)
            &&& row[3] == ValueV::Int(b.0 as i64)
            &&& forall|i: int|
                4 <= i < 7 ==> (#[trigger] row[i]) is Text && row[i]->Text_0.len() == 90
        }),
{
    let s3 = draw_below(draw_below(draw_below(state, 1_000_000_000).1, 1_000_000).1, 1_000_000).1;
    let s4 = payload(s3, word, 90).1;
    let s5 = payload(s4, word, 90).1;
    lemma_payload(s3, word, 90);
    lemma_payload(s4, word, 90);
    lemma_payload(s5, word, 90);
}

/// A bench makes a database only where there is none, and works only on one that
/// is ready.
pub proof fn law_bench_database(path: Seq<char>, status: StatusV)
    ensures
        needs_database(path, status) == Ok::<bool, ErrorV>(true) <==> status is Missing,
        needs_database(path, status) == Ok::<bool, ErrorV>(false) <==> status is Ready,
        !(status is Missing) && !(status is Ready) ==> needs_database(path, status) == Err::<
            bool,
            ErrorV,
        >(ErrorV::Other("'"@ + path + "' is not a usable balik database"@)),
{
}

/// The report on the tables: how many there are, then a line for each, in order,
/// with its columns or with what is wrong. It is good exactly where every table
/// can be described.
pub proof fn law_doctor_on_tables(store: StoreV, r: ReportV, i: int)
    requires
        catalog_checked(store, r),
        0 <= i < store.catalog.tables.len(),
    ensures
        ({
            let n = store.catalog.tables.len() as int;
            let name = store.catalog.tables[i].name;
            &&& r.lines.len() == n + 1
            &&& r.lines[0] == "[ok] catalog: "@ + decimal(n) + " tables"@
            &&& store.described(name) matches Ok(d) ==> r.lines[i + 1] == "[ok] "@ + name + ": "@
                + decimal(d.schema.len() as int) + (" columns ("@ + columns_text(d.schema) + ")"@)
            &&& store.described(name) is Err ==> !r.healthy && ("[!!] table '"@ + name
                + "': "@).is_prefix_of(r.lines[i + 1])
            &&& r.healthy ==> store.described(name) is Ok
        }),
{
    let name = table_name(store, i);
    assert(table_line(store, i, r.lines[i + 1]));
    if let Err(e) = store.described(name) {
        let head = "[!!] table '"@ + name + "': "@;
        let line = r.lines[i + 1];
        assert(tells(line, head, e));
        let full = head + e.shown();
        assert(full.is_prefix_of(line));
        assert(head.is_prefix_of(line)) by {
            assert(line.subrange(0, head.len() as int) =~= head) by {
                assert forall|k: int| 0 <= k < head.len() implies line[k] == head[k] by {
                    assert(line.subrange(0, full.len() as int)[k] == full[k]);
                }
            }
        }
    }
}

/// The whole report: the head, the lines on the database, and only where those
/// are good the lines on the catalog; it is good where all are.
pub proof fn law_doctor_report(
    head: Seq<Seq<char>>,
    database: ReportV,
    opened: Result<StoreV, ErrorV>,
    r: ReportV,
)
    requires
        diagnosed(head, database, opened, r),
    ensures
        (head + database.lines).is_prefix_of(r.lines),
        !database.healthy ==> !r.healthy && r.lines == head + database.lines,
        database.healthy && opened is Err ==> !r.healthy && r.lines.len() == head.len()
            + database.lines.len() + 1,
        database.healthy && opened is Ok ==> r.lines.len() == head.len() + database.lines.len()
            + opened->Ok_0.catalog.tables.len() + 1,
        database.healthy && opened is Ok && r.healthy ==> forall|i: int|
            0 <= i < opened->Ok_0.catalog.tables.len() ==> opened->Ok_0.described(
                (#[trigger] opened->Ok_0.catalog.tables[i]).name,
            ) is Ok,
{
    let front = head + database.lines;
    if database.healthy {
        let catalog = choose|catalog: ReportV| #[trigger]
            opening_checked(opened, catalog) && r == (ReportV {
                lines: head + database.lines + catalog.lines,
                healthy: catalog.healthy,
            });
        assert(r.lines.subrange(0, front.len() as int) =~= front);
        if let Ok(store) = opened {
            if r.healthy {
                assert forall|i: int| 0 <= i < store.catalog.tables.len() implies store.described(
                    (#[trigger] store.catalog.tables[i]).name,
                ) is Ok by {
                    assert(store.described(table_name(store, i)) is Ok);
                }
            }
        }
    } else {
        assert(r.lines.subrange(0, front.len() as int) =~= front);
    }
}

// ---- statements ----

/// A statement is bound, optimized, lowered and run, and what it gives is shown;
/// one that cannot be bound changes nothing.
pub proof fn law_statement_run(store: StoreV, stmt: StatementV)
    ensures
        bound(store, stmt) matches Err(e) ==> statement_run(store, stmt) == (
            Err::<Seq<char>, ErrorV>(e),
            store,
        ),
        bound(store, stmt) matches Ok(p) ==> {
            let (r, after) = executed(lowered(optimized(p)), store);
            &&& statement_run(store, stmt).1 == after
            &&& r matches Ok(result) ==> statement_run(store, stmt).0 == Ok::<Seq<char>, ErrorV>(
                result.text(),
            )
            &&& r matches Err(e) ==> statement_run(store, stmt).0 == Err::<Seq<char>, ErrorV>(e)
        },
{
}

/// `query` runs the one statement of a text; a text that is none is an error and
/// changes nothing.
pub proof fn law_query(store: StoreV, sql: Seq<char>)
    ensures
        the_statement(statements_of(sql)) matches Err(m) ==> query_run(store, sql) == (
            Some(Err::<Seq<char>, FailureV>(FailureV::Parse(m))),
            store,
        ),
        the_statement(statements_of(sql)) matches Ok(stmt) ==> {
            let (shown, after) = query_run(store, sql);
            &&& shown is None ==> after == store
            &&& shown is Some ==> after == statement_run(store, stmt).1
            &&& shown matches Some(Ok(text)) ==> statement_run(store, stmt).0 == Ok::<
                Seq<char>,
                ErrorV,
            >(text)
            &&& shown matches Some(Err(f)) ==> statement_run(store, stmt).0 is Err && f
                == FailureV::Engine(statement_run(store, stmt).0->Err_0)
        },
{
}

/// What the doctor says of a directory that is no database that it can read.
pub proof fn law_doctor_messages(path: Seq<char>, found: u32, supported: u32)
    ensures
        database_report(path, true, StatusV::Missing).lines == seq![
            "[!!] '"@ + path
                + "' exists but has no balik.meta — not an initialized balik database"@,
        ],
        database_report(path, true, StatusV::Unreadable).lines == seq![
            "[!!] balik.meta at '"@ + path + "' is corrupt or unreadable"@,
        ],
        database_report(path, true, StatusV::WrongMagic).lines == seq![
            "[!!] '"@ + path + "' is not a balik database"@,
        ],
        database_report(path, true, StatusV::TooNew { found, supported }).lines == seq![
            "[!!] database at '"@ + path + "' uses format version "@ + decimal(found as int) + (
            ", this binary supports "@ + decimal(supported as int)),
        ],
        verdict_error(false) == Some(ErrorV::Other("one or more diagnostic checks failed"@)),
{
}

/// A statement can be run unless it would use up identifiers that there are not:
/// of tables for CREATE TABLE, of records for INSERT and UPDATE. A query always
/// can.
pub proof fn law_statements_can_be_run(
    store: StoreV,
    h: HandleV,
    t: TableV,
    columns: Seq<ColumnDefV>,
    values: Seq<ValueV>,
    assignments: Seq<AssignmentV>,
    filter: Option<ExprV>,
    p: PhysicalPlanV,
)
    requires
        represents(store, h, t),
        t.rows.len() + t.rows.len() < u64::MAX,
        sound_filter(filter),
        filter_error(t.schema, filter, h.name) is None,
    ensures
        store.catalog.next_table_id < u64::MAX ==> ready(
            PhysicalPlanV::CreateTableExec { table: h.name, columns },
            store,
        ),
        ready(PhysicalPlanV::InsertExec { table: h.name, values }, store),
        ready(PhysicalPlanV::DeleteExec { table: h.name, filter }, store),
        ready(PhysicalPlanV::UpdateExec { table: h.name, assignments, filter }, store),
        p is TableScanExec || p is FilterExec || p is ProjectionExec || p is SortExec
            || p is LimitExec || p is TopKExec || p is DropTableExec || p is ShowTablesExec
            || p is DescribeExec ==> ready(p, store),
{
    lemma_matching(store, h, t, filter);
    let at = lemma_picked(t, filter, 0);
    assert(at.len() <= t.rows.len()) by {
        lemma_few(at, t.rows.len() as int);
    }
}

/// Numbers below `n` in increasing order are no more than `n`.
proof fn lemma_few(at: Seq<int>, n: int)
    requires
        forall|i: int, j: int| 0 <= i < j < at.len() ==> #[trigger] at[i] < #[trigger] at[j],
        forall|i: int| 0 <= i < at.len() ==> 0 <= #[trigger] at[i] < n,
        0 <= n,
    ensures
        at.len() <= n,
    decreases n,
{
    if at.len() > 0 {
        let last = at.last();
        let front = at.drop_last();
        assert(at[at.len() - 1] == last);
        assert forall|i: int| 0 <= i < front.len() implies 0 <= #[trigger] front[i] < last by {
            assert(front[i] == at[i]);
        }
        lemma_few(front, last);
    }
}

/// Where the store does not open, the catalog's part of the report is one line,
/// with the error in it, and is not healthy; an error of the operating system
/// may add its own words.
pub proof fn law_doctor_without_a_catalog(e: ErrorV, r: ReportV)
    requires
        opening_checked(Err(e), r),
    ensures
        !r.healthy,
        r.lines.len() == 1,
        e is Io ==> ("[!!] cannot open catalog: "@ + e.shown()).is_prefix_of(r.lines[0]),
        !(e is Io) ==> r.lines[0] == "[!!] cannot open catalog: "@ + e.shown(),
{
}

} // verus!
