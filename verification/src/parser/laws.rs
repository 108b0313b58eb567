//! What SQL means: which statement each construct stands for, said of the tree
//! as it was written.

use vstd::prelude::*;

use crate::parser::ast::{
    AssignmentV, ColumnDefV, CompareOp, DataType, ExprV, LogicalOp, OrderByV, ProjectionV,
    StatementV,
};
use crate::parser::error::unsupported_text;
use crate::parser::lower::{
    any_from, assignment_rule, column_rule, item_rule, literal_rule, lowered_assignment,
    lowered_column, lowered_expr, lowered_from, lowered_limit, lowered_literal, lowered_order_by,
    lowered_projection, lowered_statement, lowered_type, nullability, single, wildcard_from,
};
use crate::parser::source::{
    lexemes_of, name_at, solid, sql_statements, sql_tokens, statements_of, unnamed_at,
};
use crate::parser::the_statement;
use crate::parser::tree::{
    Lexeme, SqlAssignmentV, SqlBinary, SqlBinaryV, SqlBodyV, SqlCreateTableV, SqlDeleteV, SqlExprV,
    SqlGroupBy, SqlInsertV, SqlItemV, SqlLimitV, SqlOption, SqlOptionV, SqlOrderByV, SqlOrderItemV,
    SqlQueryV, SqlRelationV, SqlSelectV, SqlStatementV, SqlTableV, SqlType, SqlTypeV, SqlUnary,
    SqlUpdateV, SqlValueV,
};
use crate::steps::{law_first_error_counts, lemma_collect_all, lemma_collected};
use crate::storage::ValueV;
use crate::text::i64_value;

verus! {

// ---- conditions ----

/// Each comparison sign stands for the comparison that it is the sign of, with
/// its two sides where they were written; `AND` joins by and, `OR` by or.
pub proof fn law_operators(l: SqlExprV, r: SqlExprV)
    requires
        lowered_expr(l) is Ok,
        lowered_expr(r) is Ok,
    ensures
        ({
            let a = Box::new(lowered_expr(l)->Ok_0);
            let b = Box::new(lowered_expr(r)->Ok_0);
            let read = |op: SqlBinaryV|
                lowered_expr(SqlExprV::Binary { left: Box::new(l), op, right: Box::new(r) });
            &&& read(SqlBinaryV::Eq) == Ok::<ExprV, Seq<char>>(
                ExprV::Compare { left: a, op: CompareOp::Eq, right: b },
            )
            &&& read(SqlBinaryV::NotEq) == Ok::<ExprV, Seq<char>>(
                ExprV::Compare { left: a, op: CompareOp::NotEq, right: b },
            )
            &&& read(SqlBinaryV::Lt) == Ok::<ExprV, Seq<char>>(
                ExprV::Compare { left: a, op: CompareOp::Lt, right: b },
            )
            &&& read(SqlBinaryV::LtEq) == Ok::<ExprV, Seq<char>>(
                ExprV::Compare { left: a, op: CompareOp::LtEq, right: b },
            )
            &&& read(SqlBinaryV::Gt) == Ok::<ExprV, Seq<char>>(
                ExprV::Compare { left: a, op: CompareOp::Gt, right: b },
            )
            &&& read(SqlBinaryV::GtEq) == Ok::<ExprV, Seq<char>>(
                ExprV::Compare { left: a, op: CompareOp::GtEq, right: b },
            )
            &&& read(SqlBinaryV::And) == Ok::<ExprV, Seq<char>>(
                ExprV::Logical { left: a, op: LogicalOp::And, right: b },
            )
            &&& read(SqlBinaryV::Or) == Ok::<ExprV, Seq<char>>(
                ExprV::Logical { left: a, op: LogicalOp::Or, right: b },
            )
            &&& forall|s: Seq<char>| #[trigger] read(SqlBinaryV::Other(s)) is Err
        }),
{
}

/// An operator with a side that cannot be read cannot be read.
pub proof fn law_both_sides_are_read(l: SqlExprV, op: SqlBinaryV, r: SqlExprV)
    ensures
        lowered_expr(SqlExprV::Binary { left: Box::new(l), op, right: Box::new(r) }) is Ok
            ==> lowered_expr(l) is Ok && lowered_expr(r) is Ok && !(op is Other),
{
}

/// A name stands for the column of that name, a quoted text and NULL for
/// themselves, and parentheses change nothing. `NOT`, `table.column` and other
/// expressions are refused.
pub proof fn law_operands(name: Seq<char>, text: Seq<char>, e: SqlExprV)
    ensures
        lowered_expr(SqlExprV::Identifier(name)) == Ok::<ExprV, Seq<char>>(ExprV::Column(name)),
        lowered_expr(SqlExprV::Value(SqlValueV::SingleQuotedString(text))) == Ok::<
            ExprV,
            Seq<char>,
        >(ExprV::Literal(ValueV::Text(text))),
        lowered_expr(SqlExprV::Value(SqlValueV::Null)) == Ok::<ExprV, Seq<char>>(
            ExprV::Literal(ValueV::Null),
        ),
        lowered_expr(SqlExprV::Nested(Box::new(e))) == lowered_expr(e),
        lowered_expr(SqlExprV::Unary { op: SqlUnary::Not, expr: Box::new(e) }) is Err,
        lowered_expr(SqlExprV::Unary { op: SqlUnary::Other, expr: Box::new(e) }) is Err,
        lowered_expr(SqlExprV::CompoundIdentifier) is Err,
        lowered_expr(SqlExprV::Other) is Err,
{
}

/// A value in a condition is the one that it is in a list of values.
pub proof fn law_values_in_conditions(e: SqlExprV, v: ValueV)
    requires
        lowered_literal(e) == Ok::<ValueV, Seq<char>>(v),
    ensures
        lowered_expr(e) == Ok::<ExprV, Seq<char>>(ExprV::Literal(v)),
{
}

/// Literals: digits are the integer that they spell, a quoted text and NULL
/// stand for themselves. A plus changes nothing; a minus gives the opposite of
/// an integer and is refused before anything else. Names and operators are no
/// literals.
pub proof fn law_literals(digits: Seq<char>, text: Seq<char>, e: SqlExprV)
    ensures
        lowered_literal(SqlExprV::Value(SqlValueV::Number(digits))) is Ok <==> i64_value(
            digits,
        ) is Some,
        i64_value(digits) matches Some(n) ==> lowered_literal(
            SqlExprV::Value(SqlValueV::Number(digits)),
        ) == Ok::<ValueV, Seq<char>>(ValueV::Int(n)),
        lowered_literal(SqlExprV::Value(SqlValueV::SingleQuotedString(text))) == Ok::<
            ValueV,
            Seq<char>,
        >(ValueV::Text(text)),
        lowered_literal(SqlExprV::Value(SqlValueV::Null)) == Ok::<ValueV, Seq<char>>(ValueV::Null),
        lowered_literal(SqlExprV::Value(SqlValueV::Other(text))) is Err,
        lowered_literal(SqlExprV::Unary { op: SqlUnary::Plus, expr: Box::new(e) })
            == lowered_literal(e),
        !(e is Value) ==> {
            let minus = lowered_literal(
                SqlExprV::Unary { op: SqlUnary::Minus, expr: Box::new(e) },
            );
            match lowered_literal(e) {
                Ok(ValueV::Int(n)) => if n == i64::MIN {
                    minus is Err
                } else {
                    minus == Ok::<ValueV, Seq<char>>(ValueV::Int((0 - n) as i64))
                },
                _ => minus is Err,
            }
        },
        lowered_literal(
            SqlExprV::Unary {
                op: SqlUnary::Minus,
                expr: Box::new(SqlExprV::Value(SqlValueV::SingleQuotedString(text))),
            },
        ) is Err,
        lowered_literal(
            SqlExprV::Unary {
                op: SqlUnary::Minus,
                expr: Box::new(SqlExprV::Value(SqlValueV::Null)),
            },
        ) is Err,
        lowered_literal(SqlExprV::Identifier(text)) is Err,
        lowered_literal(SqlExprV::Unary { op: SqlUnary::Not, expr: Box::new(e) }) is Err,
        lowered_literal(SqlExprV::Nested(Box::new(e))) is Err,
        e is Binary ==> lowered_literal(e) is Err,
{
}

// ---- names ----

/// A name of one part stands for itself; `a.b` and function names are refused.
pub proof fn law_names(name: Seq<char>, parts: Seq<Option<Seq<char>>>)
    ensures
        single(seq![Some(name)]) == Ok::<Seq<char>, Seq<char>>(name),
        single(seq![None]) is Err,
        parts.len() != 1 ==> single(parts) is Err,
{
}

// ---- CREATE TABLE ----

/// `INT` and `INTEGER` are the integer type; `TEXT`, `VARCHAR`, `STRING` and
/// `CHAR` are the text type; there is no other.
pub proof fn law_types(t: SqlTypeV)
    ensures
        lowered_type(t) == Ok::<DataType, Seq<char>>(DataType::Int) <==> t is Int || t is Integer,
        lowered_type(t) == Ok::<DataType, Seq<char>>(DataType::Text) <==> t is Text || t is Varchar
            || t is Str || t is Char,
        lowered_type(t) is Err <==> t is Other,
{
}

/// Options behind one another.
proof fn lemma_nullability(so_far: bool, shown: Seq<char>, options: Seq<SqlOptionV>, i: int)
    requires
        0 <= i <= options.len(),
    ensures
        nullability(so_far, shown, options, i) is Err <==> exists|k: int|
            i <= k < options.len() && (#[trigger] options[k]) is Other,
        i == options.len() ==> nullability(so_far, shown, options, i) == Ok::<bool, Seq<char>>(
            so_far,
        ),
        i < options.len() && nullability(so_far, shown, options, i) is Ok ==> nullability(
            so_far,
            shown,
            options,
            i,
        ) == Ok::<bool, Seq<char>>(options.last() is Null),
    decreases options.len() - i,
{
    if i < options.len() && !(options[i] is Other) {
        lemma_nullability(options[i] is Null, shown, options, i + 1);
        if i + 1 < options.len() {
            assert(options[options.len() - 1] == options.last());
        }
    }
}

/// A column takes NULL unless the last of its options is `NOT NULL`; an option
/// that is neither `NULL` nor `NOT NULL` is refused.
pub proof fn law_nullability(shown: Seq<char>, options: Seq<SqlOptionV>)
    ensures
        options.len() == 0 ==> nullability(true, shown, options, 0) == Ok::<bool, Seq<char>>(true),
        (exists|k: int| 0 <= k < options.len() && (#[trigger] options[k]) is Other) ==> nullability(
            true,
            shown,
            options,
            0,
        ) is Err,
        options.len() > 0 && (forall|k: int|
            0 <= k < options.len() ==> !((#[trigger] options[k]) is Other)) ==> nullability(
            true,
            shown,
            options,
            0,
        ) == Ok::<bool, Seq<char>>(!(options.last() is NotNull)),
{
    lemma_nullability(true, shown, options, 0);
    if options.len() > 0 {
        assert(options[options.len() - 1] == options.last());
    }
}

/// A `CREATE TABLE` stands for a table of that name with the columns in the
/// order in which they were written, each with its name, its type and whether it
/// takes NULL.
pub proof fn law_create_table(ct: SqlCreateTableV, name: Seq<char>)
    requires
        ct.constraints == 0,
        ct.name == seq![Some(name)],
        ct.columns.len() > 0,
        forall|i: int|
            0 <= i < ct.columns.len() ==> lowered_type((#[trigger] ct.columns[i]).ty) is Ok
                && nullability(true, ct.columns[i].shown, ct.columns[i].options, 0) is Ok,
    ensures
        lowered_statement(SqlStatementV::CreateTable(ct)) == Ok::<StatementV, Seq<char>>(
            StatementV::CreateTable {
                table: name,
                columns: Seq::new(
                    ct.columns.len(),
                    |i: int|
                        ColumnDefV {
                            name: ct.columns[i].name,
                            ty: lowered_type(ct.columns[i].ty)->Ok_0,
                            nullable: nullability(
                                true,
                                ct.columns[i].shown,
                                ct.columns[i].options,
                                0,
                            )->Ok_0,
                        },
                ),
            },
        ),
{
    let all = Seq::new(
        ct.columns.len(),
        |i: int|
            ColumnDefV {
                name: ct.columns[i].name,
                ty: lowered_type(ct.columns[i].ty)->Ok_0,
                nullable: nullability(true, ct.columns[i].shown, ct.columns[i].options, 0)->Ok_0,
            },
    );
    let rule = column_rule(ct.columns);
    assert forall|i: int| 0 <= i < ct.columns.len() implies #[trigger] rule(i) == Ok::<
        ColumnDefV,
        Seq<char>,
    >(all[i]) by {
        assert(lowered_type(ct.columns[i].ty) is Ok);
    }
    lemma_collect_all(ct.columns.len() as int, rule, all);
}

/// A `CREATE TABLE` with table constraints, without columns, with a name of
/// several parts or with a column that cannot be read is refused.
pub proof fn law_create_table_refuses(ct: SqlCreateTableV)
    requires
        ct.constraints > 0 || ct.columns.len() == 0 || ct.name.len() != 1 || exists|i: int|
            0 <= i < ct.columns.len() && lowered_column(#[trigger] ct.columns[i]) is Err,
    ensures
        lowered_statement(SqlStatementV::CreateTable(ct)) is Err,
{
    lemma_collected(ct.columns.len() as int, column_rule(ct.columns));
    if exists|i: int|
        0 <= i < ct.columns.len() && lowered_column(#[trigger] ct.columns[i]) is Err {
        let i = choose|i: int|
            0 <= i < ct.columns.len() && lowered_column(#[trigger] ct.columns[i]) is Err;
        assert(column_rule(ct.columns)(i) is Err);
    }
}

// ---- INSERT ----

/// An `INSERT INTO t VALUES (...)` stands for one row with the values in the
/// order in which they were written.
pub proof fn law_insert(ins: SqlInsertV, name: Seq<char>, q: SqlQueryV, row: Seq<SqlExprV>)
    requires
        ins.table == Some(seq![Some(name)]),
        ins.columns == 0,
        ins.assignments == 0,
        ins.source == Some(q),
        q.body == SqlBodyV::Values(seq![row]),
        row.len() > 0,
        forall|i: int| 0 <= i < row.len() ==> lowered_literal(#[trigger] row[i]) is Ok,
    ensures
        lowered_statement(SqlStatementV::Insert(ins)) == Ok::<StatementV, Seq<char>>(
            StatementV::Insert {
                table: name,
                values: Seq::new(row.len(), |i: int| lowered_literal(row[i])->Ok_0),
            },
        ),
{
    let all = Seq::new(row.len(), |i: int| lowered_literal(row[i])->Ok_0);
    let rule = literal_rule(row);
    assert forall|i: int| 0 <= i < row.len() implies #[trigger] rule(i) == Ok::<
        ValueV,
        Seq<char>,
    >(all[i]) by {
        assert(lowered_literal(row[i]) is Ok);
    }
    lemma_collect_all(row.len() as int, rule, all);
    assert(seq![row][0] == row);
}

/// An `INSERT` with a column list, with `SET`, of a query, of no row, of more
/// than one row, of an empty row or of something that is no literal is refused.
pub proof fn law_insert_refuses(ins: SqlInsertV)
    requires
        ins.columns > 0 || ins.assignments > 0 || ins.source is None || ins.table is None || (
        ins.table matches Some(name) && name.len() != 1) || (ins.source matches Some(q) && !(
        q.body is Values)) || (ins.source matches Some(q) && q.body matches SqlBodyV::Values(rows)
            && (rows.len() != 1 || rows[0].len() == 0 || exists|i: int|
            0 <= i < rows[0].len() && lowered_literal(#[trigger] rows[0][i]) is Err)),
    ensures
        lowered_statement(SqlStatementV::Insert(ins)) is Err,
{
    if let Some(q) = ins.source {
        if let SqlBodyV::Values(rows) = q.body {
            if rows.len() == 1 {
                lemma_collected(rows[0].len() as int, literal_rule(rows[0]));
                if exists|i: int|
                    0 <= i < rows[0].len() && lowered_literal(#[trigger] rows[0][i]) is Err {
                    let i = choose|i: int|
                        0 <= i < rows[0].len() && lowered_literal(#[trigger] rows[0][i]) is Err;
                    assert(literal_rule(rows[0])(i) is Err);
                }
            }
        }
    }
}

// ---- SELECT ----

/// `ORDER BY c` and `ORDER BY c ASC` are the same: the order of column `c`, not
/// descending. `ORDER BY c DESC` is the descending one. Without `ORDER BY` there
/// is no order.
pub proof fn law_order_by_directions(column: Seq<char>)
    ensures
        ({
            let order = |asc: Option<bool>|
                lowered_order_by(
                    Some(
                        SqlOrderByV {
                            interpolate: false,
                            items: Some(
                                seq![
                                    SqlOrderItemV {
                                        expr: SqlExprV::Identifier(column),
                                        asc,
                                        with_fill: false,
                                    },
                                ],
                            ),
                        },
                    ),
                );
            &&& order(None) is Ok && order(None)->Ok_0 is Some
            &&& order(Some(true)) == order(None)
            &&& order(None)->Ok_0->0.column == column
            &&& !order(None)->Ok_0->0.descending
            &&& order(Some(false)) is Ok && order(Some(false))->Ok_0 is Some
            &&& order(Some(false))->Ok_0->0.column == column
            &&& order(Some(false))->Ok_0->0.descending
            &&& lowered_order_by(None) == Ok::<Option<OrderByV>, Seq<char>>(None)
        }),
{
}

/// An order by more than one column, by none, by an expression, or with any
/// extension is refused.
pub proof fn law_order_by_refuses(o: SqlOrderByV)
    requires
        o.interpolate || o.items is None || (o.items matches Some(items) && (items.len() != 1
            || items[0].with_fill || !(items[0].expr is Identifier))),
    ensures
        lowered_order_by(Some(o)) is Err,
{
}

/// `LIMIT n` with an integer that is not negative is that many rows; without
/// `LIMIT` there is no limit.
pub proof fn law_limits(e: SqlExprV, n: i64)
    requires
        lowered_literal(e) == Ok::<ValueV, Seq<char>>(ValueV::Int(n)),
    ensures
        ({
            let limit = lowered_limit(
                Some(SqlLimitV::LimitOffset { limit: Some(e), offset: false, by: 0 }),
            );
            &&& n >= 0 ==> limit is Ok && limit->Ok_0 is Some && limit->Ok_0->0 == n
            &&& n < 0 ==> limit is Err
            &&& lowered_limit(None) == Ok::<Option<u64>, Seq<char>>(None)
        }),
{
}

/// `OFFSET`, `LIMIT a, b`, `LIMIT ... BY` and a limit that is no integer are
/// refused.
pub proof fn law_limit_refuses(limit: Option<SqlExprV>, offset: bool, by: usize)
    requires
        offset || by > 0 || !(limit matches Some(e) && lowered_literal(e) matches Ok(
            ValueV::Int(n),
        )),
    ensures
        lowered_limit(Some(SqlLimitV::LimitOffset { limit, offset, by })) is Err,
        lowered_limit(Some(SqlLimitV::OffsetCommaLimit)) is Err,
{
}

/// Whether there is a wildcard among the items from the `i`th on.
proof fn lemma_wildcard(items: Seq<SqlItemV>, i: int)
    requires
        0 <= i <= items.len(),
    ensures
        wildcard_from(items, i) <==> exists|k: int|
            i <= k < items.len() && (#[trigger] items[k]) is Wildcard,
    decreases items.len() - i,
{
    if i < items.len() {
        lemma_wildcard(items, i + 1);
    }
}

/// `*` alone is every column.
pub proof fn law_star()
    ensures
        lowered_projection(seq![SqlItemV::Wildcard]) == Ok::<ProjectionV, Seq<char>>(
            ProjectionV::All,
        ),
{
    lemma_wildcard(seq![SqlItemV::Wildcard], 0);
    assert(seq![SqlItemV::Wildcard][0] is Wildcard);
}

/// A list of names is those columns, in the order of the list.
pub proof fn law_projection(names: Seq<Seq<char>>)
    requires
        names.len() > 0,
    ensures
        lowered_projection(
            Seq::new(names.len(), |i: int| SqlItemV::Expr(SqlExprV::Identifier(names[i]))),
        ) == Ok::<ProjectionV, Seq<char>>(ProjectionV::Columns(names)),
{
    let items = Seq::new(names.len(), |i: int| SqlItemV::Expr(SqlExprV::Identifier(names[i])));
    lemma_wildcard(items, 0);
    let rule = item_rule(items);
    lemma_collect_all(items.len() as int, rule, names);
}

/// An empty list, `*` among other items, an alias, `t.*` and anything but names
/// are refused.
pub proof fn law_projection_refuses(items: Seq<SqlItemV>, i: int)
    requires
        items.len() == 0 || (0 <= i < items.len() && !(items[i] matches SqlItemV::Expr(
            SqlExprV::Identifier(name),
        )) && (items[i] is Wildcard ==> items.len() > 1)),
    ensures
        lowered_projection(items) is Err,
{
    if items.len() > 0 {
        lemma_wildcard(items, 0);
        lemma_collected(items.len() as int, item_rule(items));
        if !wildcard_from(items, 0) {
            assert(item_rule(items)(i) is Err);
        } else if items.len() == 1 {
            let k = choose|k: int| 0 <= k < items.len() && (#[trigger] items[k]) is Wildcard;
            assert(k == i);
        }
    }
}

/// A `FROM` of one plain table is that table; no table, several, a join, a
/// subquery and a function are refused.
pub proof fn law_from(name: Seq<char>, from: Seq<SqlTableV>)
    ensures
        lowered_from(
            seq![
                SqlTableV {
                    relation: SqlRelationV::Table { name: seq![Some(name)], args: false },
                    joins: 0,
                },
            ],
        ) == Ok::<Seq<char>, Seq<char>>(name),
        from.len() != 1 ==> lowered_from(from) is Err,
        from.len() == 1 && (from[0].joins > 0 || from[0].relation is Other || (
        from[0].relation matches SqlRelationV::Table { name: parts, args } && (args || parts.len()
            != 1))) ==> lowered_from(from) is Err,
{
}

/// A `SELECT` stands for the query of its table with its columns, its condition,
/// its order and its limit, each as it was read for itself; where there is no
/// `WHERE` there is no condition.
pub proof fn law_select(q: SqlQueryV, s: SqlSelectV)
    requires
        !q.with,
        !q.fetch,
        q.body == SqlBodyV::Select(s),
        !s.distinct,
        !s.having,
        s.group_by == (SqlGroupBy::Expressions { exprs: 0, modifiers: 0 }),
        lowered_order_by(q.order_by) is Ok,
        lowered_limit(q.limit) is Ok,
        lowered_from(s.from) is Ok,
        lowered_projection(s.projection) is Ok,
        s.selection matches Some(e) ==> lowered_expr(e) is Ok,
    ensures
        lowered_statement(SqlStatementV::Query(q)) matches Ok(StatementV::Select(sel)) && {
            &&& sel.from == lowered_from(s.from)->Ok_0
            &&& sel.projections == lowered_projection(s.projection)->Ok_0
            &&& sel.order_by == lowered_order_by(q.order_by)->Ok_0
            &&& sel.limit == lowered_limit(q.limit)->Ok_0
            &&& s.selection is None ==> sel.filter is None
            &&& s.selection matches Some(e) ==> sel.filter == Some(lowered_expr(e)->Ok_0)
        },
{
}

/// `WITH`, `FETCH`, `DISTINCT`, `HAVING`, `GROUP BY`, set operations, nested
/// queries and bare `VALUES` are refused, and so is a query with a part that
/// cannot be read.
pub proof fn law_select_refuses(q: SqlQueryV)
    requires
        q.with || q.fetch || !(q.body is Select) || lowered_order_by(q.order_by) is Err
            || lowered_limit(q.limit) is Err || (q.body matches SqlBodyV::Select(s) && (s.distinct
            || s.having || s.group_by is All || (s.group_by matches SqlGroupBy::Expressions {
            exprs,
            modifiers,
        } && (exprs > 0 || modifiers > 0)) || lowered_from(s.from) is Err || lowered_projection(
            s.projection,
        ) is Err || (s.selection matches Some(e) && lowered_expr(e) is Err))),
    ensures
        lowered_statement(SqlStatementV::Query(q)) is Err,
{
}

// ---- the other statements ----

/// Whether a flag is set from the `i`th on.
proof fn lemma_any(flags: Seq<bool>, i: int)
    requires
        0 <= i <= flags.len(),
    ensures
        any_from(flags, i) <==> exists|k: int| i <= k < flags.len() && #[trigger] flags[k],
    decreases flags.len() - i,
{
    if i < flags.len() {
        lemma_any(flags, i + 1);
    }
}

/// `DROP TABLE t` drops that table; dropping anything else, `IF EXISTS` and
/// several tables at once are refused.
pub proof fn law_drop_table(
    name: Seq<char>,
    table: bool,
    if_exists: bool,
    names: Seq<Seq<Option<Seq<char>>>>,
)
    ensures
        lowered_statement(
            SqlStatementV::Drop { table: true, if_exists: false, names: seq![seq![Some(name)]] },
        ) == Ok::<StatementV, Seq<char>>(StatementV::DropTable { table: name }),
        !table || if_exists || names.len() != 1 || names[0].len() != 1 ==> lowered_statement(
            SqlStatementV::Drop { table, if_exists, names },
        ) is Err,
{
    assert(seq![seq![Some(name)]][0] == seq![Some(name)]);
}

/// `SHOW TABLES` without options is itself; with any it is refused.
pub proof fn law_show_tables(options: Seq<bool>)
    ensures
        (forall|k: int| 0 <= k < options.len() ==> !(#[trigger] options[k])) ==> lowered_statement(
            SqlStatementV::ShowTables { options },
        ) == Ok::<StatementV, Seq<char>>(StatementV::ShowTables),
        (exists|k: int| 0 <= k < options.len() && #[trigger] options[k]) ==> lowered_statement(
            SqlStatementV::ShowTables { options },
        ) is Err,
{
    lemma_any(options, 0);
}

/// `DESCRIBE t` describes that table, extended where it says so; `EXPLAIN` and
/// `FORMATTED` are refused.
pub proof fn law_describe(name: Seq<char>, parts: Seq<Option<Seq<char>>>, extended: bool)
    ensures
        lowered_statement(
            SqlStatementV::Describe {
                explain: false,
                extended,
                formatted: false,
                name: seq![Some(name)],
            },
        ) == Ok::<StatementV, Seq<char>>(StatementV::Describe { table: name, extended }),
        lowered_statement(
            SqlStatementV::Describe { explain: true, extended, formatted: false, name: parts },
        ) is Err,
        lowered_statement(
            SqlStatementV::Describe { explain: false, extended, formatted: true, name: parts },
        ) is Err,
        parts.len() != 1 ==> lowered_statement(
            SqlStatementV::Describe { explain: false, extended, formatted: false, name: parts },
        ) is Err,
{
}

/// `DELETE FROM t [WHERE ...]` deletes from that table by that condition, or by
/// none; any other clause is refused.
pub proof fn law_delete(d: SqlDeleteV)
    ensures
        ({
            let plain = d.tables == 0 && d.ordered == 0 && forall|k: int|
                0 <= k < d.clauses.len() ==> !(#[trigger] d.clauses[k]);
            let readable = lowered_from(d.from) is Ok && (d.selection matches Some(e)
                ==> lowered_expr(e) is Ok);
            let read = lowered_statement(SqlStatementV::Delete(d));
            &&& plain && readable ==> read == Ok::<StatementV, Seq<char>>(
                StatementV::Delete {
                    table: lowered_from(d.from)->Ok_0,
                    filter: match d.selection {
                        None => None,
                        Some(e) => Some(lowered_expr(e)->Ok_0),
                    },
                },
            )
            &&& !(plain && readable) ==> read is Err
        }),
{
    lemma_any(d.clauses, 0);
}

/// An assignment is of a literal to a column of a single name.
pub proof fn law_assignment(name: Seq<char>, a: SqlAssignmentV)
    ensures
        a.target == Some(seq![Some(name)]) && lowered_literal(a.value) is Ok ==> lowered_assignment(
            a,
        ) == Ok::<AssignmentV, Seq<char>>(
            AssignmentV { column: name, value: lowered_literal(a.value)->Ok_0 },
        ),
        a.target is None || (a.target matches Some(parts) && parts.len() != 1) || lowered_literal(
            a.value,
        ) is Err ==> lowered_assignment(a) is Err,
{
}

/// `UPDATE t SET ... [WHERE ...]` updates that table by the assignments in the
/// order in which they were written, all of them, where that condition holds, or
/// everywhere; any other clause is refused.
pub proof fn law_update(u: SqlUpdateV)
    ensures
        ({
            let plain = u.ordered == 0 && forall|k: int|
                0 <= k < u.clauses.len() ==> !(#[trigger] u.clauses[k]);
            let readable = lowered_from(seq![u.table]) is Ok && (u.selection matches Some(e)
                ==> lowered_expr(e) is Ok) && forall|i: int|
                0 <= i < u.assignments.len() ==> lowered_assignment(
                    #[trigger] u.assignments[i],
                ) is Ok;
            let read = lowered_statement(SqlStatementV::Update(u));
            &&& plain && readable ==> read == Ok::<StatementV, Seq<char>>(
                StatementV::Update {
                    table: lowered_from(seq![u.table])->Ok_0,
                    assignments: Seq::new(
                        u.assignments.len(),
                        |i: int| lowered_assignment(u.assignments[i])->Ok_0,
                    ),
                    filter: match u.selection {
                        None => None,
                        Some(e) => Some(lowered_expr(e)->Ok_0),
                    },
                },
            )
            &&& !(plain && readable) ==> read is Err
        }),
{
    lemma_any(u.clauses, 0);
    let n = u.assignments.len() as int;
    let rule = assignment_rule(u.assignments);
    let all = Seq::new(u.assignments.len(), |i: int| lowered_assignment(u.assignments[i])->Ok_0);
    if forall|i: int|
        0 <= i < u.assignments.len() ==> lowered_assignment(#[trigger] u.assignments[i]) is Ok {
        assert forall|i: int| 0 <= i < n implies #[trigger] rule(i) == Ok::<
            AssignmentV,
            Seq<char>,
        >(all[i]) by {
            assert(lowered_assignment(u.assignments[i]) is Ok);
        }
        lemma_collect_all(n, rule, all);
    } else {
        lemma_collected(n, rule);
        let i = choose|i: int|
            0 <= i < u.assignments.len() && !(lowered_assignment(
                #[trigger] u.assignments[i],
            ) is Ok);
        assert(rule(i) is Err);
    }
}

/// Any other statement is refused.
pub proof fn law_other_statements_are_refused()
    ensures
        lowered_statement(SqlStatementV::Other) is Err,
{
}

/// A text holds one statement, and means what that one means; an empty text and
/// several statements are refused, and so is what could not be read.
pub proof fn law_one_statement(
    read: Result<Seq<SqlStatementV>, Seq<char>>,
    s: SqlStatementV,
    m: Seq<char>,
)
    ensures
        the_statement(Ok(seq![s])) == lowered_statement(s),
        read matches Ok(all) && all.len() != 1 ==> the_statement(read) is Err,
        the_statement(Err(m)) == Err::<StatementV, Seq<char>>(m),
{
}

// ---- views ----

/// The parts of a tree stand for what they are called.
pub proof fn law_parts_are_what_they_are_called(s: String)
    ensures
        SqlBinary::Eq@ == SqlBinaryV::Eq,
        SqlBinary::NotEq@ == SqlBinaryV::NotEq,
        SqlBinary::Lt@ == SqlBinaryV::Lt,
        SqlBinary::LtEq@ == SqlBinaryV::LtEq,
        SqlBinary::Gt@ == SqlBinaryV::Gt,
        SqlBinary::GtEq@ == SqlBinaryV::GtEq,
        SqlBinary::And@ == SqlBinaryV::And,
        SqlBinary::Or@ == SqlBinaryV::Or,
        SqlType::Int@ == SqlTypeV::Int,
        SqlType::Integer@ == SqlTypeV::Integer,
        SqlType::Text@ == SqlTypeV::Text,
        SqlType::Varchar@ == SqlTypeV::Varchar,
        SqlType::Str@ == SqlTypeV::Str,
        SqlType::Char@ == SqlTypeV::Char,
        SqlOption::Null@ == SqlOptionV::Null,
        SqlOption::NotNull@ == SqlOptionV::NotNull,
        SqlOption::Other(s)@ == SqlOptionV::Other(s@),
        crate::parser::tree::SqlValue::Number(s)@ == SqlValueV::Number(s@),
        crate::parser::tree::SqlValue::SingleQuotedString(s)@ == SqlValueV::SingleQuotedString(s@),
        crate::parser::tree::SqlValue::Null@ == SqlValueV::Null,
{
}

// ---- what is said of what is refused ----

/// A refusal says what is not supported, behind the word for it.
pub proof fn law_refusal_text(what: Seq<char>)
    ensures
        unsupported_text(what) == "unsupported: "@ + what,
{
}

/// What is said of the parts of a query that are not supported.
pub proof fn law_query_refusals(q: SqlQueryV, s: SqlSelectV)
    ensures
        ({
            let read = lowered_statement(SqlStatementV::Query(q));
            let no = |what: Seq<char>|
                read == Err::<StatementV, Seq<char>>(unsupported_text(what));
            let parts = lowered_order_by(q.order_by) is Ok && lowered_limit(q.limit) is Ok;
            let plain = !q.with && !q.fetch && parts;
            &&& q.with ==> no("WITH (common table expressions)"@)
            &&& !q.with && q.fetch ==> no("FETCH"@)
            &&& plain && q.body is SetOperation ==> no(
                "set operations (UNION / EXCEPT / INTERSECT)"@,
            )
            &&& plain && q.body is Query ==> no("nested SELECT"@)
            &&& plain && q.body is Values ==> no("bare VALUES"@)
            &&& plain && q.body is Other ==> no("this query form"@)
            &&& plain && q.body == SqlBodyV::Select(s) ==> {
                let grouped = s.group_by != (SqlGroupBy::Expressions { exprs: 0, modifiers: 0 });
                &&& s.distinct ==> no("SELECT DISTINCT"@)
                &&& !s.distinct && s.having ==> no("HAVING"@)
                &&& !s.distinct && !s.having && grouped ==> no("GROUP BY"@)
            }
        }),
{
}

/// What is said of a `FROM` that is not supported.
pub proof fn law_from_refusals(from: Seq<SqlTableV>)
    ensures
        from.len() == 0 ==> lowered_from(from) == Err::<Seq<char>, Seq<char>>(
            "SELECT requires a FROM clause"@,
        ),
        from.len() > 1 ==> lowered_from(from) == Err::<Seq<char>, Seq<char>>(
            unsupported_text("more than one table in FROM"@),
        ),
        from.len() == 1 && from[0].joins > 0 ==> lowered_from(from) == Err::<Seq<char>, Seq<char>>(
            unsupported_text("JOIN"@),
        ),
        from.len() == 1 && from[0].joins == 0 && from[0].relation is Other ==> lowered_from(from)
            == Err::<Seq<char>, Seq<char>>(
            unsupported_text("subquery or derived table in FROM"@),
        ),
{
}

/// What is said of an order and of a limit that are not supported.
pub proof fn law_order_and_limit_refusals(o: SqlOrderByV, e: SqlExprV, by: usize)
    ensures
        ({
            let order = lowered_order_by(Some(o));
            let no = |what: Seq<char>|
                order == Err::<Option<OrderByV>, Seq<char>>(unsupported_text(what));
            &&& o.interpolate ==> no("ORDER BY ... INTERPOLATE"@)
            &&& !o.interpolate && o.items is None ==> no("ORDER BY ALL"@)
            &&& !o.interpolate && o.items is Some && o.items->0.len() == 0 ==> order == Err::<
                Option<OrderByV>,
                Seq<char>,
            >("ORDER BY requires a column"@)
            &&& !o.interpolate && o.items is Some && o.items->0.len() > 1 ==> no(
                "ORDER BY with more than one column"@,
            )
        }),
        lowered_limit(
            Some(SqlLimitV::LimitOffset { limit: Some(e), offset: true, by }),
        ) == Err::<Option<u64>, Seq<char>>(unsupported_text("OFFSET"@)),
        lowered_literal(e) matches Ok(ValueV::Int(n)) ==> n < 0 ==> lowered_limit(
            Some(SqlLimitV::LimitOffset { limit: Some(e), offset: false, by: 0 }),
        ) == Err::<Option<u64>, Seq<char>>("LIMIT requires a non-negative integer"@),
        lowered_limit(Some(SqlLimitV::OffsetCommaLimit)) == Err::<Option<u64>, Seq<char>>(
            unsupported_text("`LIMIT offset, count` syntax"@),
        ),
{
}

/// What is said of a list of columns that is not supported.
pub proof fn law_projection_refusals(items: Seq<SqlItemV>, i: int)
    requires
        0 <= i < items.len(),
        forall|k: int|
            0 <= k < i ==> (#[trigger] items[k]) is Expr && items[k]->Expr_0 is Identifier,
    ensures
        ({
            let read = lowered_projection(items);
            let no = |what: Seq<char>|
                read == Err::<ProjectionV, Seq<char>>(unsupported_text(what));
            let star = exists|k: int| 0 <= k < items.len() && (#[trigger] items[k]) is Wildcard;
            &&& star && items.len() > 1 ==> no("`*` mixed with other projections"@)
            &&& !star && items[i] is Alias ==> no("column aliases (AS) in projection"@)
            &&& !star && items[i] is QualifiedWildcard ==> no("qualified wildcard (table.*)"@)
            &&& !star && items[i] is Expr && !(items[i]->Expr_0 is Identifier) ==> no(
                "expressions in the projection list (only column names are allowed)"@,
            )
        }),
{
    lemma_wildcard(items, 0);
    let rule = item_rule(items);
    if rule(i) is Err {
        assert forall|j: int| 0 <= j < i implies (#[trigger] rule(j)) is Ok by {
            let item = items[j];
        }
        law_first_error_counts(items.len() as int, rule, i);
    }
}

/// What is said of the other statements that are not supported.
pub proof fn law_statement_refusals(
    ct: SqlCreateTableV,
    ins: SqlInsertV,
    d: SqlDeleteV,
    u: SqlUpdateV,
    names: Seq<Seq<Option<Seq<char>>>>,
    name: Seq<Option<Seq<char>>>,
    flag: bool,
)
    ensures
        ({
            let no = |s: SqlStatementV, what: Seq<char>|
                lowered_statement(s) == Err::<StatementV, Seq<char>>(unsupported_text(what));
            &&& ct.constraints > 0 ==> no(
                SqlStatementV::CreateTable(ct),
                "table constraints (PRIMARY KEY, FOREIGN KEY, ...)"@,
            )
            &&& ins.table is None ==> no(SqlStatementV::Insert(ins), "this INSERT target"@)
            &&& ins.table is Some && single(ins.table->0) is Ok ==> {
                &&& ins.columns > 0 ==> no(
                    SqlStatementV::Insert(ins),
                    "INSERT with an explicit column list"@,
                )
                &&& ins.columns == 0 && ins.assignments > 0 ==> no(
                    SqlStatementV::Insert(ins),
                    "INSERT ... SET"@,
                )
                &&& ins.columns == 0 && ins.assignments == 0 && ins.source is Some ==> {
                    &&& !(ins.source->0.body is Values) ==> no(
                        SqlStatementV::Insert(ins),
                        "INSERT ... SELECT"@,
                    )
                    &&& ins.source->0.body is Values && ins.source->0.body->Values_0.len() > 1
                        ==> no(SqlStatementV::Insert(ins), "multi-row INSERT"@)
                }
            }
            &&& no(
                SqlStatementV::Drop { table: false, if_exists: flag, names },
                "DROP of anything but a TABLE"@,
            )
            &&& no(
                SqlStatementV::Drop { table: true, if_exists: true, names },
                "DROP TABLE IF EXISTS"@,
            )
            &&& names.len() != 1 ==> no(
                SqlStatementV::Drop { table: true, if_exists: false, names },
                "dropping more than one table at once"@,
            )
            &&& no(
                SqlStatementV::Describe { explain: true, extended: flag, formatted: flag, name },
                "EXPLAIN"@,
            )
            &&& no(
                SqlStatementV::Describe { explain: false, extended: flag, formatted: true, name },
                "DESCRIBE FORMATTED"@,
            )
            &&& no(SqlStatementV::ShowTables { options: seq![true] }, "SHOW TABLES with options"@)
            &&& d.tables > 0 || d.ordered > 0 ==> no(
                SqlStatementV::Delete(d),
                "DELETE with more than FROM and WHERE"@,
            )
            &&& u.ordered > 0 ==> no(
                SqlStatementV::Update(u),
                "UPDATE with more than SET and WHERE"@,
            )
        }),
        name.len() != 1 ==> single(name) == Err::<Seq<char>, Seq<char>>(
            unsupported_text("qualified names (schema.table); use a bare table name"@),
        ),
{
    lemma_any(seq![true], 0);
    assert(seq![true][0]);
}

/// What is said of conditions, types and options that are not supported.
pub proof fn law_part_refusals(e: SqlExprV, s: Seq<char>, shown: Seq<char>)
    ensures
        lowered_expr(SqlExprV::Unary { op: SqlUnary::Not, expr: Box::new(e) }) == Err::<
            ExprV,
            Seq<char>,
        >(unsupported_text("NOT in WHERE"@)),
        lowered_expr(SqlExprV::CompoundIdentifier) == Err::<ExprV, Seq<char>>(
            unsupported_text("qualified column references (table.column)"@),
        ),
        lowered_expr(
            SqlExprV::Binary {
                left: Box::new(e),
                op: SqlBinaryV::Other(s),
                right: Box::new(e),
            },
        ) == Err::<ExprV, Seq<char>>(unsupported_text("operator `"@ + s + "` in WHERE"@)),
        lowered_type(SqlTypeV::Other(s)) == Err::<DataType, Seq<char>>(
            unsupported_text("column type `"@ + s + "` (supported: INT, TEXT)"@),
        ),
        nullability(true, shown, seq![SqlOptionV::Other(s)], 0) == Err::<bool, Seq<char>>(
            unsupported_text(
                "column option `"@ + s + "` on `"@ + shown
                    + "` (only NULL / NOT NULL are supported)"@,
            ),
        ),
        i64_value(s) is None ==> lowered_literal(SqlExprV::Value(SqlValueV::Number(s))) == Err::<
            ValueV,
            Seq<char>,
        >("`"@ + s + "` is not a valid integer"@),
{
}

// ---- channels without a name ----

/// Only the white space is left out.
pub proof fn law_solid(all: Seq<Lexeme>)
    ensures
        solid(all) == all.filter(|l: Lexeme| l != Lexeme::Space),
    decreases all.len(),
{
    reveal(Seq::filter);
    if all.len() > 0 {
        law_solid(all.drop_last());
    } else {
        assert(solid(all) =~= all);
    }
}

/// Without white space nothing is left out.
proof fn lemma_solid_stays(all: Seq<Lexeme>)
    requires
        !all.contains(Lexeme::Space),
    ensures
        solid(all) == all,
    decreases all.len(),
{
    if all.len() > 0 {
        let front = all.drop_last();
        assert(all[all.len() - 1] == all.last());
        assert(!front.contains(Lexeme::Space)) by {
            if front.contains(Lexeme::Space) {
                let i = front.index_of(Lexeme::Space);
                assert(all[i] == Lexeme::Space);
            }
        }
        lemma_solid_stays(front);
        assert(front.push(all.last()) =~= all);
    } else {
        assert(solid(all) =~= all);
    }
}

/// A `CHANNEL` behind `FLUSH RELAY LOGS FOR` has no name exactly where none
/// stands behind it; a `CHANNEL` behind anything but those words is never one
/// without a name.
pub proof fn law_channels_without_a_name(a: Seq<Lexeme>, b: Seq<Lexeme>, word: Lexeme)
    requires
        !a.contains(Lexeme::Space),
        !b.contains(Lexeme::Space),
        word != Lexeme::Space,
        word != Lexeme::For,
    ensures
        ({
            let words = seq![Lexeme::Flush, Lexeme::Relay, Lexeme::Logs, Lexeme::For];
            let all = a + words + seq![Lexeme::Channel] + b;
            &&& unnamed_at(all, a.len() as int + 4) <==> !name_at(b, 0)
            &&& !unnamed_at(a.push(word) + seq![Lexeme::Channel] + b, a.len() as int + 1)
        }),
        b.len() == 0 ==> !name_at(b, 0),
        b.len() == 1 ==> (name_at(b, 0) <==> b[0] != Lexeme::Period && b[0] != Lexeme::Other),
        b.len() > 1 && b[1] != Lexeme::Period ==> (name_at(b, 0) <==> b[0] != Lexeme::Period && b[0]
            != Lexeme::Other),
{
    let words = seq![Lexeme::Flush, Lexeme::Relay, Lexeme::Logs, Lexeme::For];
    let front = a + words;
    let all = front + seq![Lexeme::Channel] + b;
    assert(!front.contains(Lexeme::Space)) by {
        if front.contains(Lexeme::Space) {
            let i = front.index_of(Lexeme::Space);
            if i < a.len() {
                assert(a[i] == Lexeme::Space);
            }
        }
    }
    lemma_solid_stays(front);
    lemma_solid_stays(b);
    assert(all.subrange(0, a.len() as int + 4) =~= front);
    assert(all.subrange(a.len() as int + 5, all.len() as int) =~= b);
    let other = a.push(word);
    let rest = other + seq![Lexeme::Channel] + b;
    assert(!other.contains(Lexeme::Space)) by {
        if other.contains(Lexeme::Space) {
            let i = other.index_of(Lexeme::Space);
            if i < a.len() {
                assert(a[i] == Lexeme::Space);
            }
        }
    }
    lemma_solid_stays(other);
    assert(rest.subrange(0, a.len() as int + 1) =~= other);
    if b.len() > 0 {
        assert(b[0] != Lexeme::Space) by {
            if b[0] == Lexeme::Space {
                assert(b.contains(Lexeme::Space));
            }
        }
    }
}

/// A text whose channels all have names is read as the parser reads it.
pub proof fn law_other_texts_are_read_as_they_are(text: Seq<char>)
    requires
        !(sql_tokens(text) matches Some(tokens) && exists|k: int| #[trigger]
            unnamed_at(lexemes_of(tokens), k)),
    ensures
        statements_of(text) == sql_statements(text),
{
}

/// What is said of values that are not supported, or are no numbers where a
/// number is needed.
pub proof fn law_value_refusals(e: SqlExprV, s: Seq<char>, sign: SqlUnary)
    ensures
        ({
            let no = Err::<ValueV, Seq<char>>(
                unsupported_text("this value (expected an integer, a 'string', or NULL)"@),
            );
            let unary = SqlExprV::Unary { op: sign, expr: Box::new(e) };
            let literal = Err::<ValueV, Seq<char>>(unsupported_text("literal `"@ + s + "`"@));
            &&& lowered_literal(SqlExprV::Value(SqlValueV::Other(s))) == literal
            &&& lowered_expr(SqlExprV::Value(SqlValueV::Other(s))) == Err::<ExprV, Seq<char>>(
                literal->Err_0,
            )
            &&& sign == SqlUnary::Not || sign == SqlUnary::Other ==> lowered_literal(unary) == no
            &&& e is Identifier || e is CompoundIdentifier || e is Nested || e is Binary || e is Other
                ==> lowered_literal(e) == no
            &&& sign == SqlUnary::Minus && !(e is Value && e->Value_0 is Number) ==> {
                &&& lowered_literal(e) is Err ==> lowered_literal(unary) == lowered_literal(e)
                &&& lowered_literal(e) is Ok && !(lowered_literal(e)->Ok_0 is Int)
                    ==> lowered_literal(unary) == Err::<ValueV, Seq<char>>(
                    "`-` expects a number"@,
                )
                &&& lowered_literal(e) == Ok::<ValueV, Seq<char>>(ValueV::Int(i64::MIN))
                    ==> lowered_literal(unary) == Err::<ValueV, Seq<char>>(
                    "`9223372036854775808` is not a valid integer"@,
                )
            }
            &&& sign == SqlUnary::Other ==> lowered_expr(unary) == Err::<ExprV, Seq<char>>(
                unsupported_text("this WHERE expression"@),
            )
            &&& lowered_expr(SqlExprV::Other) == Err::<ExprV, Seq<char>>(
                unsupported_text("this WHERE expression"@),
            )
        }),
{
}

/// What is said of clauses that are not supported or have nothing in them.
pub proof fn law_clause_refusals(
    o: SqlOrderByV,
    e: SqlExprV,
    by: usize,
    t: SqlTableV,
    a: SqlAssignmentV,
)
    requires
        !o.interpolate,
        o.items is Some,
        o.items->0.len() == 1,
        t.joins == 0,
        t.relation is Table,
        t.relation->args,
    ensures
        o.items->0[0].with_fill ==> lowered_order_by(Some(o)) == Err::<
            Option<OrderByV>,
            Seq<char>,
        >(unsupported_text("ORDER BY ... WITH FILL"@)),
        !o.items->0[0].with_fill && !(o.items->0[0].expr is Identifier) ==> lowered_order_by(
            Some(o),
        ) == Err::<Option<OrderByV>, Seq<char>>(
            unsupported_text("ORDER BY on a non-column expression"@),
        ),
        by > 0 ==> lowered_limit(
            Some(SqlLimitV::LimitOffset { limit: Some(e), offset: false, by }),
        ) == Err::<Option<u64>, Seq<char>>(unsupported_text("LIMIT ... BY"@)),
        lowered_limit(
            Some(SqlLimitV::LimitOffset { limit: None, offset: false, by: 0 }),
        ) == Err::<Option<u64>, Seq<char>>("LIMIT requires a number"@),
        lowered_literal(e) is Err ==> lowered_limit(
            Some(SqlLimitV::LimitOffset { limit: Some(e), offset: false, by: 0 }),
        ) == Err::<Option<u64>, Seq<char>>(lowered_literal(e)->Err_0),
        lowered_literal(e) is Ok && !(lowered_literal(e)->Ok_0 is Int) ==> lowered_limit(
            Some(SqlLimitV::LimitOffset { limit: Some(e), offset: false, by: 0 }),
        ) == Err::<Option<u64>, Seq<char>>("LIMIT requires a non-negative integer"@),
        lowered_from(seq![t]) == Err::<Seq<char>, Seq<char>>(
            unsupported_text("table-valued function in FROM"@),
        ),
        lowered_projection(Seq::empty()) == Err::<ProjectionV, Seq<char>>(
            "SELECT requires a projection list (column names or `*`)"@,
        ),
        a.target is None ==> lowered_assignment(a) == Err::<AssignmentV, Seq<char>>(
            unsupported_text("SET of more than one column at once"@),
        ),
        single(seq![None::<Seq<char>>]) == Err::<Seq<char>, Seq<char>>(
            unsupported_text("function name in this position"@),
        ),
{
}

/// What is said of statements with nothing in them, of statements of other sorts,
/// and of texts that hold no statement or several.
pub proof fn law_empty_and_other_statements(
    ct: SqlCreateTableV,
    ins: SqlInsertV,
    read: Seq<SqlStatementV>,
    message: Seq<char>,
)
    requires
        ct.constraints == 0,
        single(ct.name) is Ok,
        ct.columns.len() == 0,
        ins.table is Some,
        single(ins.table->0) is Ok,
        ins.columns == 0,
        ins.assignments == 0,
    ensures
        lowered_statement(SqlStatementV::CreateTable(ct)) == Err::<StatementV, Seq<char>>(
            "CREATE TABLE requires at least one column definition"@,
        ),
        ins.source is None ==> lowered_statement(SqlStatementV::Insert(ins)) == Err::<
            StatementV,
            Seq<char>,
        >("INSERT requires a VALUES clause"@),
        ins.source is Some && ins.source->0.body is Values && (
        ins.source->0.body->Values_0.len() == 0 || ins.source->0.body->Values_0.len() == 1
            && ins.source->0.body->Values_0[0].len() == 0) ==> lowered_statement(
            SqlStatementV::Insert(ins),
        ) == Err::<StatementV, Seq<char>>("INSERT requires at least one value"@),
        lowered_statement(SqlStatementV::Other) == Err::<StatementV, Seq<char>>(
            unsupported_text(
                "only CREATE TABLE, INSERT, SELECT, UPDATE, DELETE, DROP TABLE, SHOW TABLES and DESCRIBE are supported, not `this statement`"@,
            ),
        ),
        the_statement(Err(message)) == Err::<StatementV, Seq<char>>(message),
        read.len() == 0 ==> the_statement(Ok(read)) == Err::<StatementV, Seq<char>>(
            "empty input: expected a SQL statement"@,
        ),
        read.len() > 1 ==> the_statement(Ok(read)) == Err::<StatementV, Seq<char>>(
            "expected a single SQL statement per query"@,
        ),
        read.len() == 1 ==> the_statement(Ok(read)) == lowered_statement(read[0]),
{
}

} // verus!
