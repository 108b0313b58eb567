//! The text of plans and results, spelled out.

use vstd::prelude::*;
use vstd::utf8::encode_utf8;

use crate::execution::logical::plan::LogicalPlanV;
use crate::execution::physical::plan::PhysicalPlanV;
use crate::execution::physical::result::{
    column_width, column_widths, line_text, row_texts, rule_text, table_lines, value_text,
    QueryResultV,
};
use crate::execution::render::{
    assignment_text, assignments_text, column_def_text, column_defs_text, compare_op_text,
    expr_text, list_text, literal_text, literals_text, logical_op_text, scan_predicate_text,
    scan_predicates_text,
};
use crate::parser::ast::{AssignmentV, ColumnDefV, CompareOp, DataType, ExprV, LogicalOp};
use crate::storage::{ScanCompare, ScanPredicateV, ValueV};
use crate::text::{decimal, joined, padded, repeated};
use crate::text_laws::law_joining;

verus! {

// ---- conditions ----

/// The text of a condition is the condition as it is written in a query: names,
/// integers in decimal, texts in single quotes, NULL; between the sides of a
/// comparison stands its sign, between those of a conjunction the word AND and
/// between those of a disjunction the word OR, with one space on either side.
pub proof fn law_condition_text(l: ExprV, r: ExprV, name: Seq<char>, n: i64, s: Seq<char>)
    ensures
        expr_text(ExprV::Column(name)) == name,
        expr_text(ExprV::Literal(ValueV::Int(n))) == decimal(n as int),
        expr_text(ExprV::Literal(ValueV::Text(s))) == seq!['\''] + s + seq!['\''],
        expr_text(ExprV::Literal(ValueV::Null)) == seq!['N', 'U', 'L', 'L'],
        ({
            let a = Box::new(l);
            let b = Box::new(r);
            let x = expr_text(l);
            let y = expr_text(r);
            let compared = |op: CompareOp| expr_text(ExprV::Compare { left: a, op, right: b });
            &&& compared(CompareOp::Eq) == x + seq![' ', '=', ' '] + y
            &&& compared(CompareOp::NotEq) == x + seq![' ', '!', '=', ' '] + y
            &&& compared(CompareOp::Lt) == x + seq![' ', '<', ' '] + y
            &&& compared(CompareOp::LtEq) == x + seq![' ', '<', '=', ' '] + y
            &&& compared(CompareOp::Gt) == x + seq![' ', '>', ' '] + y
            &&& compared(CompareOp::GtEq) == x + seq![' ', '>', '=', ' '] + y
            &&& expr_text(ExprV::Logical { left: a, op: LogicalOp::And, right: b }) == x + seq![
                ' ', 'A', 'N', 'D', ' ',
            ] + y
            &&& expr_text(ExprV::Logical { left: a, op: LogicalOp::Or, right: b }) == x + seq![
                ' ', 'O', 'R', ' ',
            ] + y
        }),
{
    reveal_strlit(" ");
    reveal_strlit("=");
    reveal_strlit("!=");
    reveal_strlit("<");
    reveal_strlit("<=");
    reveal_strlit(">");
    reveal_strlit(">=");
    reveal_strlit("AND");
    reveal_strlit("OR");
    reveal_strlit("NULL");
    reveal_strlit("'");
    let a = Box::new(l);
    let b = Box::new(r);
    let x = expr_text(l);
    let y = expr_text(r);
    let compared = |op: CompareOp| expr_text(ExprV::Compare { left: a, op, right: b });
    assert("NULL"@ =~= seq!['N', 'U', 'L', 'L']);
    assert("'"@ + s + "'"@ =~= seq!['\''] + s + seq!['\'']);
    assert(compared(CompareOp::Eq) =~= x + seq![' ', '=', ' '] + y);
    assert(compared(CompareOp::NotEq) =~= x + seq![' ', '!', '=', ' '] + y);
    assert(compared(CompareOp::Lt) =~= x + seq![' ', '<', ' '] + y);
    assert(compared(CompareOp::LtEq) =~= x + seq![' ', '<', '=', ' '] + y);
    assert(compared(CompareOp::Gt) =~= x + seq![' ', '>', ' '] + y);
    assert(compared(CompareOp::GtEq) =~= x + seq![' ', '>', '=', ' '] + y);
    assert(expr_text(ExprV::Logical { left: a, op: LogicalOp::And, right: b }) =~= x + seq![
        ' ', 'A', 'N', 'D', ' ',
    ] + y);
    assert(expr_text(ExprV::Logical { left: a, op: LogicalOp::Or, right: b }) =~= x + seq![
        ' ', 'O', 'R', ' ',
    ] + y);
}

/// The signs and words of different operators differ, so that the text tells
/// them apart.
pub proof fn law_operators_are_told_apart(
    p: CompareOp,
    q: CompareOp,
    u: LogicalOp,
    v: LogicalOp,
)
    ensures
        compare_op_text(p) == compare_op_text(q) ==> p == q,
        logical_op_text(u) == logical_op_text(v) ==> u == v,
{
    reveal_strlit("=");
    reveal_strlit("!=");
    reveal_strlit("<");
    reveal_strlit("<=");
    reveal_strlit(">");
    reveal_strlit(">=");
    reveal_strlit("AND");
    reveal_strlit("OR");
    let a = compare_op_text(p);
    let b = compare_op_text(q);
    assert(a.len() == b.len() && a[0] == b[0] || a != b);
    assert(logical_op_text(u).len() == logical_op_text(v).len() || logical_op_text(u)
        != logical_op_text(v));
}

/// Two comparisons with integers, joined: the text is what a query would say.
pub proof fn law_joined_comparisons_text(a: Seq<char>, m: i64, b: Seq<char>, n: i64)
    ensures
        ({
            let left = ExprV::Compare {
                left: Box::new(ExprV::Column(a)),
                op: CompareOp::Gt,
                right: Box::new(ExprV::Literal(ValueV::Int(m))),
            };
            let right = ExprV::Compare {
                left: Box::new(ExprV::Column(b)),
                op: CompareOp::Lt,
                right: Box::new(ExprV::Literal(ValueV::Int(n))),
            };
            let both = |op: LogicalOp|
                expr_text(ExprV::Logical { left: Box::new(left), op, right: Box::new(right) });
            &&& both(LogicalOp::And) == a + " > "@ + decimal(m as int) + " AND "@ + b + " < "@
                + decimal(n as int)
            &&& both(LogicalOp::Or) == a + " > "@ + decimal(m as int) + " OR "@ + b + " < "@
                + decimal(n as int)
        }),
{
    reveal_strlit(" > ");
    reveal_strlit(" < ");
    reveal_strlit(" AND ");
    reveal_strlit(" OR ");
    let left = ExprV::Compare {
        left: Box::new(ExprV::Column(a)),
        op: CompareOp::Gt,
        right: Box::new(ExprV::Literal(ValueV::Int(m))),
    };
    let right = ExprV::Compare {
        left: Box::new(ExprV::Column(b)),
        op: CompareOp::Lt,
        right: Box::new(ExprV::Literal(ValueV::Int(n))),
    };
    let x = ExprV::Literal(ValueV::Int(m));
    let y = ExprV::Literal(ValueV::Int(n));
    law_condition_text(ExprV::Column(a), x, a, m, a);
    law_condition_text(ExprV::Column(b), y, b, n, b);
    law_condition_text(left, right, a, m, a);
    let both = |op: LogicalOp|
        expr_text(ExprV::Logical { left: Box::new(left), op, right: Box::new(right) });
    assert(both(LogicalOp::And) =~= a + " > "@ + decimal(m as int) + " AND "@ + b + " < "@
        + decimal(n as int));
    assert(both(LogicalOp::Or) =~= a + " > "@ + decimal(m as int) + " OR "@ + b + " < "@ + decimal(
        n as int,
    ));
}

/// A hint for a scan is shown as the comparison that it stands for.
pub proof fn law_hint_text(column: Seq<char>, value: i64)
    ensures
        ({
            let shown = |op: ScanCompare|
                scan_predicate_text(ScanPredicateV { column, op, value });
            let n = decimal(value as int);
            &&& shown(ScanCompare::Eq) == column + " = "@ + n
            &&& shown(ScanCompare::NotEq) == column + " != "@ + n
            &&& shown(ScanCompare::Lt) == column + " < "@ + n
            &&& shown(ScanCompare::LtEq) == column + " <= "@ + n
            &&& shown(ScanCompare::Gt) == column + " > "@ + n
            &&& shown(ScanCompare::GtEq) == column + " >= "@ + n
        }),
{
    reveal_strlit(" ");
    reveal_strlit("=");
    reveal_strlit("!=");
    reveal_strlit("<");
    reveal_strlit("<=");
    reveal_strlit(">");
    reveal_strlit(">=");
    reveal_strlit(" = ");
    reveal_strlit(" != ");
    reveal_strlit(" < ");
    reveal_strlit(" <= ");
    reveal_strlit(" > ");
    reveal_strlit(" >= ");
    let shown = |op: ScanCompare| scan_predicate_text(ScanPredicateV { column, op, value });
    let n = decimal(value as int);
    assert(shown(ScanCompare::Eq) =~= column + " = "@ + n);
    assert(shown(ScanCompare::NotEq) =~= column + " != "@ + n);
    assert(shown(ScanCompare::Lt) =~= column + " < "@ + n);
    assert(shown(ScanCompare::LtEq) =~= column + " <= "@ + n);
    assert(shown(ScanCompare::Gt) =~= column + " > "@ + n);
    assert(shown(ScanCompare::GtEq) =~= column + " >= "@ + n);
}

/// A literal alone is shown as it is within a condition; an assignment is its
/// column, an equals sign and its value; a column definition its name and type,
/// and NOT NULL where it takes none.
pub proof fn law_literal_assignment_and_column_text(v: ValueV, name: Seq<char>)
    ensures
        literal_text(v) == expr_text(ExprV::Literal(v)),
        assignment_text(AssignmentV { column: name, value: v }) == name + " = "@ + literal_text(v),
        column_def_text(ColumnDefV { name, ty: DataType::Int, nullable: true }) == name + " INT"@,
        column_def_text(ColumnDefV { name, ty: DataType::Text, nullable: true }) == name
            + " TEXT"@,
        column_def_text(ColumnDefV { name, ty: DataType::Int, nullable: false }) == name
            + " INT NOT NULL"@,
        column_def_text(ColumnDefV { name, ty: DataType::Text, nullable: false }) == name
            + " TEXT NOT NULL"@,
{
    reveal_strlit("");
    reveal_strlit(" ");
    reveal_strlit("INT");
    reveal_strlit("TEXT");
    reveal_strlit(" NOT NULL");
    reveal_strlit(" INT");
    reveal_strlit(" TEXT");
    reveal_strlit(" INT NOT NULL");
    reveal_strlit(" TEXT NOT NULL");
    assert(column_def_text(ColumnDefV { name, ty: DataType::Int, nullable: true }) =~= name
        + " INT"@);
    assert(column_def_text(ColumnDefV { name, ty: DataType::Text, nullable: true }) =~= name
        + " TEXT"@);
    assert(column_def_text(ColumnDefV { name, ty: DataType::Int, nullable: false }) =~= name
        + " INT NOT NULL"@);
    assert(column_def_text(ColumnDefV { name, ty: DataType::Text, nullable: false }) =~= name
        + " TEXT NOT NULL"@);
}

// ---- lists ----

/// A list is shown item by item, in order, with a comma and a space between.
proof fn lemma_list<T>(first: T, rest: Seq<T>, shown: spec_fn(T) -> Seq<char>)
    ensures
        list_text(Seq::empty(), shown) == Seq::<char>::empty(),
        list_text(seq![first], shown) == shown(first),
        rest.len() > 0 ==> list_text(seq![first] + rest, shown) == shown(first) + ", "@ + list_text(
            rest,
            shown,
        ),
{
    let all = seq![first] + rest;
    let parts = Seq::new(all.len(), |i: int| shown(all[i]));
    let others = Seq::new(rest.len(), |i: int| shown(rest[i]));
    law_joining(shown(first), others, ", "@);
    assert(parts =~= seq![shown(first)] + others);
    let one = seq![first];
    assert(Seq::new(one.len(), |i: int| shown(one[i])) =~= seq![shown(first)]);
    let none = Seq::<T>::empty();
    assert(Seq::new(none.len(), |i: int| shown(none[i])) =~= Seq::<Seq<char>>::empty());
}

/// Lists of literals, assignments, columns and hints are shown item by item, in
/// order, with a comma and a space between.
pub proof fn law_list_text(
    v: ValueV,
    vs: Seq<ValueV>,
    a: AssignmentV,
    aa: Seq<AssignmentV>,
    c: ColumnDefV,
    cs: Seq<ColumnDefV>,
    p: ScanPredicateV,
    ps: Seq<ScanPredicateV>,
)
    ensures
        literals_text(seq![v]) == literal_text(v),
        vs.len() > 0 ==> literals_text(seq![v] + vs) == literal_text(v) + ", "@ + literals_text(vs),
        assignments_text(seq![a]) == assignment_text(a),
        aa.len() > 0 ==> assignments_text(seq![a] + aa) == assignment_text(a) + ", "@
            + assignments_text(aa),
        column_defs_text(seq![c]) == column_def_text(c),
        cs.len() > 0 ==> column_defs_text(seq![c] + cs) == column_def_text(c) + ", "@
            + column_defs_text(cs),
        scan_predicates_text(seq![p]) == scan_predicate_text(p),
        ps.len() > 0 ==> scan_predicates_text(seq![p] + ps) == scan_predicate_text(p) + ", "@
            + scan_predicates_text(ps),
{
    lemma_list(v, vs, |v: ValueV| literal_text(v));
    lemma_list(a, aa, |a: AssignmentV| assignment_text(a));
    lemma_list(c, cs, |c: ColumnDefV| column_def_text(c));
    lemma_list(p, ps, |p: ScanPredicateV| scan_predicate_text(p));
}

// ---- plans ----

/// The empty text adds nothing, and neighbouring pieces of text are one.
proof fn lemma_pieces(s: Seq<char>, n: Seq<char>)
    ensures
        s + ""@ == s,
        s + " DESC"@ + "]"@ == s + " DESC]"@,
        s + " DESC"@ + "] "@ + n == s + " DESC] "@ + n,
        s + ("]"@ + ""@) == s + "]"@,
        s + ("]"@ + (" WHERE "@ + n)) == s + "] WHERE "@ + n,
        s + (" ["@ + n + "]"@) == s + " ["@ + n + "]"@,
        s + "]"@ + (" prune=["@ + n + "]"@) == s + "] prune=["@ + n + "]"@,
        s + (" prune=["@ + n + "]"@) == s + " prune=["@ + n + "]"@,
{
    reveal_strlit("");
    reveal_strlit("]");
    reveal_strlit("] ");
    reveal_strlit(" DESC");
    reveal_strlit(" DESC]");
    reveal_strlit(" DESC] ");
    reveal_strlit(" WHERE ");
    reveal_strlit("] WHERE ");
    reveal_strlit(" prune=[");
    reveal_strlit("] prune=[");
    assert(s + ""@ =~= s);
    assert(s + " DESC"@ + "]"@ =~= s + " DESC]"@);
    assert(s + " DESC"@ + "] "@ + n =~= s + " DESC] "@ + n);
    assert(s + ("]"@ + ""@) =~= s + "]"@);
    assert(s + ("]"@ + (" WHERE "@ + n)) =~= s + "] WHERE "@ + n);
    assert(s + (" ["@ + n + "]"@) =~= s + " ["@ + n + "]"@);
    assert(s + "]"@ + (" prune=["@ + n + "]"@) =~= s + "] prune=["@ + n + "]"@);
    assert(s + (" prune=["@ + n + "]"@) =~= s + " prune=["@ + n + "]"@);
}

/// The line of each logical operator of a statement that is no query: its name, the
/// table, and what it does with it.
pub proof fn law_logical_statement_lines(
    table: Seq<char>,
    columns: Seq<ColumnDefV>,
    values: Seq<ValueV>,
    assignments: Seq<AssignmentV>,
    e: ExprV,
)
    ensures
        (LogicalPlanV::CreateTable { table, columns }).line() == "CreateTable "@ + table + " ["@
            + column_defs_text(columns) + "]"@,
        (LogicalPlanV::Insert { table, values }).line() == "Insert "@ + table + " ["@
            + literals_text(values) + "]"@,
        (LogicalPlanV::DropTable { table }).line() == "DropTable "@ + table,
        (LogicalPlanV::ShowTables).line() == "ShowTables"@,
        (LogicalPlanV::Describe { table, extended: false }).line() == "Describe "@ + table,
        (LogicalPlanV::Describe { table, extended: true }).line() == "Describe "@ + table
            + " EXTENDED"@,
        (LogicalPlanV::Delete { table, filter: None }).line() == "Delete "@ + table,
        (LogicalPlanV::Delete { table, filter: Some(e) }).line() == "Delete "@ + table + " ["@
            + expr_text(e) + "]"@,
        (LogicalPlanV::Update { table, assignments, filter: None }).line() == "Update "@ + table
            + " ["@ + assignments_text(assignments) + "]"@,
        (LogicalPlanV::Update { table, assignments, filter: Some(e) }).line() == "Update "@ + table
            + " ["@ + assignments_text(assignments) + "] WHERE "@ + expr_text(e),
{
    let none = Seq::<char>::empty();
    lemma_pieces("Describe "@ + table, none);
    lemma_pieces("Delete "@ + table, expr_text(e));
    lemma_pieces("Update "@ + table + " ["@ + assignments_text(assignments), expr_text(e));
}

/// The line of each logical operator of a query: its name, and in brackets what it does
/// with the rows.
pub proof fn law_logical_query_lines(
    table: Seq<char>,
    column: Seq<char>,
    names: Seq<Seq<char>>,
    e: ExprV,
    count: u64,
    input: Box<LogicalPlanV>,
)
    ensures
        (LogicalPlanV::Scan { table, columns: None }).line() == "Scan "@ + table,
        (LogicalPlanV::Scan { table, columns: Some(names) }).line() == "Scan "@ + table + " ["@
            + joined(names, ", "@) + "]"@,
        (LogicalPlanV::Filter { predicate: e, input }).line() == "Filter ["@ + expr_text(e) + "]"@,
        (LogicalPlanV::Projection { columns: names, input }).line() == "Projection ["@
            + joined(names, ", "@) + "]"@,
        (LogicalPlanV::Sort { column, descending: false, input }).line() == "Sort ["@ + column
            + "]"@,
        (LogicalPlanV::Sort { column, descending: true, input }).line() == "Sort ["@ + column
            + " DESC]"@,
        (LogicalPlanV::Limit { count, input }).line() == "Limit "@ + decimal(count as int),
        (LogicalPlanV::TopK { column, descending: false, count, input }).line() == "TopK ["@
            + column + "] "@ + decimal(count as int),
        (LogicalPlanV::TopK { column, descending: true, count, input }).line() == "TopK ["@
            + column + " DESC] "@ + decimal(count as int),
{
    let listed = joined(names, ", "@);
    let scan = "Scan "@ + table;
    let number = decimal(count as int);
    lemma_pieces(scan, listed);
    lemma_pieces("Sort ["@ + column, number);
    lemma_pieces("TopK ["@ + column, number);
}

/// The line of each physical operator of a statement that is no query: its name, the
/// table, and what it does with it.
pub proof fn law_physical_statement_lines(
    table: Seq<char>,
    columns: Seq<ColumnDefV>,
    values: Seq<ValueV>,
    assignments: Seq<AssignmentV>,
    e: ExprV,
)
    ensures
        (PhysicalPlanV::CreateTableExec { table, columns }).line() == "CreateTableExec "@ + table
            + " ["@ + column_defs_text(columns) + "]"@,
        (PhysicalPlanV::InsertExec { table, values }).line() == "InsertExec "@ + table + " ["@
            + literals_text(values) + "]"@,
        (PhysicalPlanV::DropTableExec { table }).line() == "DropTableExec "@ + table,
        (PhysicalPlanV::ShowTablesExec).line() == "ShowTablesExec"@,
        (PhysicalPlanV::DescribeExec { table, extended: false }).line() == "DescribeExec "@ + table,
        (PhysicalPlanV::DescribeExec { table, extended: true }).line() == "DescribeExec "@ + table
            + " EXTENDED"@,
        (PhysicalPlanV::DeleteExec { table, filter: None }).line() == "DeleteExec "@ + table,
        (PhysicalPlanV::DeleteExec { table, filter: Some(e) }).line() == "DeleteExec "@ + table
            + " ["@ + expr_text(e) + "]"@,
        (PhysicalPlanV::UpdateExec { table, assignments, filter: None }).line() == "UpdateExec "@
            + table + " ["@ + assignments_text(assignments) + "]"@,
        (PhysicalPlanV::UpdateExec { table, assignments, filter: Some(e) }).line() == "UpdateExec "@
            + table + " ["@ + assignments_text(assignments) + "] WHERE "@ + expr_text(e),
{
    let none = Seq::<char>::empty();
    lemma_pieces("DescribeExec "@ + table, none);
    lemma_pieces("DeleteExec "@ + table, expr_text(e));
    lemma_pieces("UpdateExec "@ + table + " ["@ + assignments_text(assignments), expr_text(e));
}

/// The line of each physical operator of a query: its name, and in brackets what it does
/// with the rows.
pub proof fn law_physical_query_lines(
    table: Seq<char>,
    column: Seq<char>,
    names: Seq<Seq<char>>,
    e: ExprV,
    count: u64,
    hints: Seq<ScanPredicateV>,
    input: Box<PhysicalPlanV>,
)
    ensures
        (PhysicalPlanV::TableScanExec { table, projection: None, prune: Seq::empty() }).line()
            == "TableScanExec "@ + table,
        (PhysicalPlanV::TableScanExec {
            table,
            projection: Some(names),
            prune: Seq::empty(),
        }).line() == "TableScanExec "@ + table + " ["@ + joined(names, ", "@) + "]"@,
        hints.len() > 0 ==> (PhysicalPlanV::TableScanExec {
            table,
            projection: Some(names),
            prune: hints,
        }).line() == "TableScanExec "@ + table + " ["@ + joined(names, ", "@) + "] prune=["@
            + scan_predicates_text(hints) + "]"@,
        hints.len() > 0 ==> (PhysicalPlanV::TableScanExec {
            table,
            projection: None,
            prune: hints,
        }).line() == "TableScanExec "@ + table + " prune=["@ + scan_predicates_text(hints) + "]"@,
        (PhysicalPlanV::FilterExec { predicate: e, input }).line() == "FilterExec ["@ + expr_text(e)
            + "]"@,
        (PhysicalPlanV::ProjectionExec { columns: names, input }).line() == "ProjectionExec ["@
            + joined(names, ", "@) + "]"@,
        (PhysicalPlanV::SortExec { column, descending: false, input }).line()
            == "SortExec ["@ + column + "]"@,
        (PhysicalPlanV::SortExec { column, descending: true, input }).line() == "SortExec ["@
            + column + " DESC]"@,
        (PhysicalPlanV::LimitExec { count, input }).line() == "LimitExec "@ + decimal(count as int),
        (PhysicalPlanV::TopKExec { column, descending: false, count, input }).line()
            == "TopKExec ["@ + column + "] "@ + decimal(count as int),
        (PhysicalPlanV::TopKExec { column, descending: true, count, input }).line()
            == "TopKExec ["@ + column + " DESC] "@ + decimal(count as int),
{
    let listed = joined(names, ", "@);
    let scan = "TableScanExec "@ + table;
    let number = decimal(count as int);
    lemma_pieces(scan, listed);
    let hinted = scan_predicates_text(hints);
    lemma_pieces(scan, hinted);
    lemma_pieces(scan + " ["@ + listed + "]"@, hinted);
    lemma_pieces(scan + " ["@ + listed, hinted);
    lemma_pieces("SortExec ["@ + column, number);
    lemma_pieces("TopKExec ["@ + column, number);
}

/// A plan is shown from the top down: each operator on a line of its own, and
/// under it, two spaces further in, the operator that it takes its rows from.
pub proof fn law_plan_text(
    pad: Seq<char>,
    e: ExprV,
    names: Seq<Seq<char>>,
    column: Seq<char>,
    descending: bool,
    count: u64,
    p: LogicalPlanV,
    q: PhysicalPlanV,
)
    ensures
        ({
            let under = seq!['\n'] + p.text(pad + seq![' ', ' ']);
            let input = Box::new(p);
            let shown = |n: LogicalPlanV| n.text(pad) == pad + n.line() + under;
            &&& shown(LogicalPlanV::Filter { predicate: e, input })
            &&& shown(LogicalPlanV::Projection { columns: names, input })
            &&& shown(LogicalPlanV::Sort { column, descending, input })
            &&& shown(LogicalPlanV::Limit { count, input })
            &&& shown(LogicalPlanV::TopK { column, descending, count, input })
            &&& !(p is Filter || p is Projection || p is Sort || p is Limit || p is TopK)
                ==> p.text(pad) == pad + p.line()
        }),
        ({
            let under = seq!['\n'] + q.text(pad + seq![' ', ' ']);
            let input = Box::new(q);
            let shown = |n: PhysicalPlanV| n.text(pad) == pad + n.line() + under;
            &&& shown(PhysicalPlanV::FilterExec { predicate: e, input })
            &&& shown(PhysicalPlanV::ProjectionExec { columns: names, input })
            &&& shown(PhysicalPlanV::SortExec { column, descending, input })
            &&& shown(PhysicalPlanV::LimitExec { count, input })
            &&& shown(PhysicalPlanV::TopKExec { column, descending, count, input })
            &&& !(q is FilterExec || q is ProjectionExec || q is SortExec || q is LimitExec
                || q is TopKExec) ==> q.text(pad) == pad + q.line()
        }),
{
    reveal_strlit("\n");
    reveal_strlit("  ");
    assert("\n"@ =~= seq!['\n']);
    assert("  "@ =~= seq![' ', ' ']);
    let a = p.text(pad + seq![' ', ' ']);
    let b = q.text(pad + seq![' ', ' ']);
    let input = Box::new(p);
    assert forall|line: Seq<char>| #[trigger] (pad + line) + "\n"@ + a == pad + line + (seq!['\n']
        + a) by {
        assert((pad + line) + "\n"@ + a =~= pad + line + (seq!['\n'] + a));
    }
    assert forall|line: Seq<char>| #[trigger] (pad + line) + "\n"@ + b == pad + line + (seq!['\n']
        + b) by {
        assert((pad + line) + "\n"@ + b =~= pad + line + (seq!['\n'] + b));
    }
}

// ---- results ----

/// A value is shown as an integer in decimal, as its text without quotes, or as
/// NULL.
pub proof fn law_value_text(n: i64, s: Seq<char>)
    ensures
        value_text(ValueV::Int(n)) == decimal(n as int),
        value_text(ValueV::Text(s)) == s,
        value_text(ValueV::Null) == seq!['N', 'U', 'L', 'L'],
{
    reveal_strlit("NULL");
    assert("NULL"@ =~= seq!['N', 'U', 'L', 'L']);
}

/// A column is as wide as the widest among the first `n` rows and its name.
proof fn lemma_width(names: Seq<Seq<char>>, rows: Seq<Seq<ValueV>>, i: int, n: int)
    requires
        0 <= n <= rows.len(),
    ensures
        ({
            let w = column_width(names, rows, i, n);
            &&& w >= encode_utf8(names[i]).len()
            &&& forall|r: int|
                0 <= r < n && i < (#[trigger] rows[r]).len() ==> w >= encode_utf8(
                    value_text(rows[r][i]),
                ).len()
            &&& w == encode_utf8(names[i]).len() || exists|r: int|
                0 <= r < n && i < (#[trigger] rows[r]).len() && w == encode_utf8(
                    value_text(rows[r][i]),
                ).len()
        }),
    decreases n,
{
    if n > 0 {
        lemma_width(names, rows, i, n - 1);
        let earlier = column_width(names, rows, i, n - 1);
        let w = column_width(names, rows, i, n);
        if w == earlier && w != encode_utf8(names[i]).len() {
            let r = choose|r: int|
                0 <= r < n - 1 && i < (#[trigger] rows[r]).len() && w == encode_utf8(
                    value_text(rows[r][i]),
                ).len();
            assert(i < rows[r].len());
        }
    }
}

/// The columns of a result are as wide as their widest entry, the name
/// included, and no wider.
pub proof fn law_column_widths(names: Seq<Seq<char>>, rows: Seq<Seq<ValueV>>, i: int)
    requires
        0 <= i < names.len(),
    ensures
        column_widths(names, rows).len() == names.len(),
        ({
            let w = column_widths(names, rows)[i];
            &&& w >= encode_utf8(names[i]).len()
            &&& forall|r: int|
                0 <= r < rows.len() && i < (#[trigger] rows[r]).len() ==> w >= encode_utf8(
                    value_text(rows[r][i]),
                ).len()
            &&& w == encode_utf8(names[i]).len() || exists|r: int|
                0 <= r < rows.len() && i < (#[trigger] rows[r]).len() && w == encode_utf8(
                    value_text(rows[r][i]),
                ).len()
        }),
{
    lemma_width(names, rows, i, rows.len() as int);
}

/// A line of a result: the first cell, padded to the width of its column, then a
/// bar between spaces, then the line of the other cells.
pub proof fn law_result_line(
    cell: Seq<char>,
    width: int,
    cells: Seq<Seq<char>>,
    widths: Seq<int>,
)
    requires
        cells.len() == widths.len(),
    ensures
        line_text(seq![cell], seq![width]) == padded(cell, width),
        cells.len() > 0 ==> line_text(seq![cell] + cells, seq![width] + widths) == padded(
            cell,
            width,
        ) + " | "@ + line_text(cells, widths),
        width >= 0 ==> rule_text(seq![width]) == repeated('-', width as nat),
        width >= 0 && widths.len() > 0 ==> rule_text(seq![width] + widths) == repeated(
            '-',
            width as nat,
        ) + "-+-"@ + rule_text(widths),
{
    let at = |cells: Seq<Seq<char>>, widths: Seq<int>|
        Seq::new(
            cells.len(),
            |i: int|
                padded(
                    cells[i],
                    if i < widths.len() {
                        widths[i]
                    } else {
                        0
                    },
                ),
        );
    let rule = |widths: Seq<int>| Seq::new(widths.len(), |i: int| repeated('-', widths[i] as nat));
    law_joining(padded(cell, width), at(cells, widths), " | "@);
    law_joining(repeated('-', width as nat), rule(widths), "-+-"@);
    assert(at(seq![cell], seq![width]) =~= seq![padded(cell, width)]);
    assert(at(seq![cell] + cells, seq![width] + widths) =~= seq![padded(cell, width)] + at(
        cells,
        widths,
    ));
    assert(rule(seq![width]) =~= seq![repeated('-', width as nat)]);
    assert(rule(seq![width] + widths) =~= seq![repeated('-', width as nat)] + rule(widths));
    assert(line_text(seq![cell], seq![width]) == joined(at(seq![cell], seq![width]), " | "@));
    assert(line_text(cells, widths) == joined(at(cells, widths), " | "@));
    assert(line_text(seq![cell] + cells, seq![width] + widths) == joined(
        at(seq![cell] + cells, seq![width] + widths),
        " | "@,
    ));
    assert(rule_text(seq![width]) == joined(rule(seq![width]), "-+-"@));
    assert(rule_text(widths) == joined(rule(widths), "-+-"@));
    assert(rule_text(seq![width] + widths) == joined(rule(seq![width] + widths), "-+-"@));
}

/// The text of a result of rows: a line with the names, a rule, and one line for
/// each row, in order, with the text of its values. The text of any other result
/// is its message.
pub proof fn law_result_text(names: Seq<Seq<char>>, rows: Seq<Seq<ValueV>>, message: Seq<char>)
    ensures
        QueryResultV::Affected(message).text() == message,
        ({
            let widths = column_widths(names, rows);
            let lines = table_lines(names, rows);
            &&& (QueryResultV::Rows { names, rows }).text() == joined(lines, seq!['\n'])
            &&& lines.len() == rows.len() + 2
            &&& lines[0] == line_text(names, widths)
            &&& lines[1] == rule_text(widths)
            &&& forall|i: int|
                0 <= i < rows.len() ==> #[trigger] lines[i + 2] == line_text(
                    Seq::new(rows[i].len(), |c: int| value_text(rows[i][c])),
                    widths,
                )
        }),
{
    reveal_strlit("\n");
    assert("\n"@ =~= seq!['\n']);
    let widths = column_widths(names, rows);
    let lines = table_lines(names, rows);
    assert forall|i: int| 0 <= i < rows.len() implies #[trigger] lines[i + 2] == line_text(
        Seq::new(rows[i].len(), |c: int| value_text(rows[i][c])),
        widths,
    ) by {
        assert(row_texts(rows[i]) =~= Seq::new(rows[i].len(), |c: int| value_text(rows[i][c])));
    }
}

} // verus!
