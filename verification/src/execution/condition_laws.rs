//! What conditions mean, said of integers, characters and rows alone.

use vstd::prelude::*;

use crate::catalog::schema::ColumnV;
use crate::error::ErrorV;
use crate::execution::logical::plan::LogicalPlanV;
use crate::execution::physical::batch::{even, filtered_batch, kept};
use crate::execution::physical::expr::{mask_of, value_compare};
use crate::execution::physical::lower::{lowered, lowered_under};
use crate::execution::physical::plan::PhysicalPlanV;
use crate::execution::physical::prune::hints;
use crate::execution::physical::sort::row_of;
use crate::execution::select_laws::meets;
use crate::parser::ast::{CompareOp, ExprV, LogicalOp};
use crate::storage::model::has_column;
use crate::storage::scan_laws::{column_index, lemma_column_index};
use crate::storage::table_model::distinct_names;
use crate::storage::{BatchV, ScanCompare, ScanPredicateV, ValueV};
use crate::text::{lemma_position, lemma_text_order};
use crate::text_laws::law_texts_are_in_dictionary_order;

verus! {

/// Integers are compared as integers, negative ones included.
pub proof fn law_integers_compare_as_numbers(x: i64, y: i64)
    ensures
        ({
            let a = ValueV::Int(x);
            let b = ValueV::Int(y);
            &&& value_compare(a, CompareOp::Eq, b) <==> x - y == 0
            &&& value_compare(a, CompareOp::NotEq, b) <==> x - y != 0
            &&& value_compare(a, CompareOp::Lt, b) <==> y - x > 0
            &&& value_compare(a, CompareOp::LtEq, b) <==> y - x >= 0
            &&& value_compare(a, CompareOp::Gt, b) <==> x - y > 0
            &&& value_compare(a, CompareOp::GtEq, b) <==> x - y >= 0
        }),
{
}

/// Texts are compared in dictionary order: `<` holds exactly where the left one
/// is a proper beginning of the right one, or has the smaller character at the
/// first position in which they differ; `>` where `<` holds the other way round;
/// `<=` and `>=` hold where that or equality does, and `!=` where the texts are
/// not the same.
pub proof fn law_texts_compare_in_dictionary_order(x: Seq<char>, y: Seq<char>)
    ensures
        ({
            let a = ValueV::Text(x);
            let b = ValueV::Text(y);
            let first = exists|k: int|
                0 <= k <= x.len() && k < y.len() && #[trigger] x.take(k) == y.take(k) && (k
                    == x.len() || x[k] < y[k]);
            let second = exists|k: int|
                0 <= k <= y.len() && k < x.len() && #[trigger] y.take(k) == x.take(k) && (k
                    == y.len() || y[k] < x[k]);
            &&& value_compare(a, CompareOp::Eq, b) <==> x == y
            &&& value_compare(a, CompareOp::NotEq, b) <==> x != y
            &&& value_compare(a, CompareOp::Lt, b) <==> first
            &&& value_compare(a, CompareOp::LtEq, b) <==> first || x == y
            &&& value_compare(a, CompareOp::Gt, b) <==> second
            &&& value_compare(a, CompareOp::GtEq, b) <==> second || x == y
        }),
{
    law_texts_are_in_dictionary_order(x, y);
    law_texts_are_in_dictionary_order(y, x);
    lemma_text_order(x, y, x);
}

/// Of two integers, and of two texts, exactly one of `<`, `=` and `>` holds.
pub proof fn law_exactly_one_comparison_holds(a: ValueV, b: ValueV)
    requires
        (a is Int && b is Int) || (a is Text && b is Text),
    ensures
        ({
            let lt = value_compare(a, CompareOp::Lt, b);
            let eq = value_compare(a, CompareOp::Eq, b);
            let gt = value_compare(a, CompareOp::Gt, b);
            &&& lt || eq || gt
            &&& !(lt && eq)
            &&& !(lt && gt)
            &&& !(eq && gt)
            &&& value_compare(a, CompareOp::LtEq, b) == !gt
            &&& value_compare(a, CompareOp::GtEq, b) == !lt
            &&& value_compare(a, CompareOp::NotEq, b) == !eq
            &&& gt == value_compare(b, CompareOp::Lt, a)
        }),
{
    if let (ValueV::Text(x), ValueV::Text(y)) = (a, b) {
        lemma_text_order(x, y, x);
    }
}

/// Values that are not both integers or both texts never match, whatever the
/// operator: NULL matches nothing, not even NULL, and an integer no text.
pub proof fn law_other_values_never_match(a: ValueV, op: CompareOp, b: ValueV)
    requires
        !(a is Int && b is Int),
        !(a is Text && b is Text),
    ensures
        !value_compare(a, op, b),
{
}

/// A comparison of a column with a literal is checked row by row, on the value
/// that the row has in the column of that name, on the side where it stands.
pub proof fn law_column_is_compared_row_by_row(
    b: BatchV,
    c: int,
    op: CompareOp,
    v: ValueV,
    row: int,
)
    requires
        even(b),
        0 <= c < b.names.len(),
        forall|j: int| 0 <= j < c ==> b.names[j] != b.names[c],
        0 <= row < b.num_rows(),
    ensures
        ({
            let column = ExprV::Column(b.names[c]);
            let literal = ExprV::Literal(v);
            let forth = mask_of(
                ExprV::Compare { left: Box::new(column), op, right: Box::new(literal) },
                b,
            );
            let back = mask_of(
                ExprV::Compare { left: Box::new(literal), op, right: Box::new(column) },
                b,
            );
            &&& forth is Ok && forth->Ok_0.len() == b.num_rows()
            &&& back is Ok && back->Ok_0.len() == b.num_rows()
            &&& forth->Ok_0[row] == value_compare(b.columns[c][row], op, v)
            &&& back->Ok_0[row] == value_compare(v, op, b.columns[c][row])
        }),
{
    lemma_position(b.names, b.names[c], 0);
}

/// Two columns are compared within each row.
pub proof fn law_columns_are_compared_within_a_row(
    b: BatchV,
    c: int,
    d: int,
    op: CompareOp,
    row: int,
)
    requires
        even(b),
        0 <= c < b.names.len(),
        0 <= d < b.names.len(),
        forall|j: int| 0 <= j < c ==> b.names[j] != b.names[c],
        forall|j: int| 0 <= j < d ==> b.names[j] != b.names[d],
        0 <= row < b.num_rows(),
    ensures
        mask_of(
            ExprV::Compare {
                left: Box::new(ExprV::Column(b.names[c])),
                op,
                right: Box::new(ExprV::Column(b.names[d])),
            },
            b,
        ) matches Ok(mask) && mask[row] == value_compare(
            b.columns[c][row],
            op,
            b.columns[d][row],
        ),
{
    lemma_position(b.names, b.names[c], 0);
    lemma_position(b.names, b.names[d], 0);
}

/// A row meets `l AND r` exactly where it meets both, and `l OR r` exactly where
/// it meets one of them.
pub proof fn law_and_or(l: ExprV, r: ExprV, b: BatchV, row: int)
    requires
        mask_of(l, b) is Ok,
        mask_of(r, b) is Ok,
        0 <= row < b.num_rows(),
    ensures
        ({
            let both = mask_of(
                ExprV::Logical { left: Box::new(l), op: LogicalOp::And, right: Box::new(r) },
                b,
            );
            let either = mask_of(
                ExprV::Logical { left: Box::new(l), op: LogicalOp::Or, right: Box::new(r) },
                b,
            );
            let left = mask_of(l, b)->Ok_0[row];
            let right = mask_of(r, b)->Ok_0[row];
            &&& both is Ok && both->Ok_0.len() == b.num_rows()
            &&& either is Ok && either->Ok_0.len() == b.num_rows()
            &&& left && right ==> both->Ok_0[row]
            &&& both->Ok_0[row] ==> left
            &&& both->Ok_0[row] ==> right
            &&& left ==> either->Ok_0[row]
            &&& right ==> either->Ok_0[row]
            &&& either->Ok_0[row] ==> left || right
        }),
{
}

/// The same of a row of a table: a comparison of a column and a literal looks at
/// the row's value in the column of that name.
pub proof fn law_row_is_compared_in_its_column(
    schema: Seq<ColumnV>,
    row: Seq<ValueV>,
    c: int,
    op: CompareOp,
    v: ValueV,
)
    requires
        distinct_names(schema),
        0 <= c < schema.len(),
    ensures
        ({
            let column = ExprV::Column(schema[c].name);
            let literal = ExprV::Literal(v);
            &&& meets(
                ExprV::Compare { left: Box::new(column), op, right: Box::new(literal) },
                schema,
                row,
            ) == value_compare(row[c], op, v)
            &&& meets(
                ExprV::Compare { left: Box::new(literal), op, right: Box::new(column) },
                schema,
                row,
            ) == value_compare(v, op, row[c])
        }),
{
    assert(has_column(schema, schema[c].name));
    lemma_column_index(schema, schema[c].name);
    let i = column_index(schema, schema[c].name);
    if i != c {
        assert(schema[i].name != schema[c].name);
    }
}

/// The same of a row of a table: `AND` asks for both sides, `OR` for one.
pub proof fn law_row_meets_and_or(l: ExprV, r: ExprV, schema: Seq<ColumnV>, row: Seq<ValueV>)
    ensures
        ({
            let both = meets(
                ExprV::Logical { left: Box::new(l), op: LogicalOp::And, right: Box::new(r) },
                schema,
                row,
            );
            let either = meets(
                ExprV::Logical { left: Box::new(l), op: LogicalOp::Or, right: Box::new(r) },
                schema,
                row,
            );
            &&& meets(l, schema, row) && meets(r, schema, row) ==> both
            &&& both ==> meets(l, schema, row)
            &&& both ==> meets(r, schema, row)
            &&& meets(l, schema, row) ==> either
            &&& meets(r, schema, row) ==> either
            &&& either ==> meets(l, schema, row) || meets(r, schema, row)
        }),
{
}

/// A condition that is a bare column or literal is refused, and so is a
/// comparison of anything but columns and literals.
pub proof fn law_bare_operands_are_no_condition(e: ExprV, op: CompareOp, b: BatchV)
    ensures
        e is Column || e is Literal ==> mask_of(e, b) is Err,
        e is Compare || e is Logical ==> mask_of(
            ExprV::Compare {
                left: Box::new(e),
                op,
                right: Box::new(ExprV::Literal(ValueV::Null)),
            },
            b,
        ) is Err,
{
}

/// A column that a batch does not have is refused.
pub proof fn law_missing_column_is_refused(name: Seq<char>, op: CompareOp, v: ValueV, b: BatchV)
    requires
        !b.names.contains(name),
    ensures
        mask_of(
            ExprV::Compare {
                left: Box::new(ExprV::Column(name)),
                op,
                right: Box::new(ExprV::Literal(v)),
            },
            b,
        ) == Err::<Seq<bool>, ErrorV>(
            ErrorV::Other(
                "filter references column '"@ + name + "' not present in the scanned batch"@,
            ),
        ),
{
    lemma_position(b.names, name, 0);
}

// ---- filtering ----

/// The positions below `n` that a mask keeps, in order.
proof fn lemma_kept_positions(mask: Seq<bool>, n: int) -> (at: Seq<int>)
    requires
        0 <= n <= mask.len(),
    ensures
        forall|i: int, j: int| 0 <= i < j < at.len() ==> #[trigger] at[i] < #[trigger] at[j],
        forall|i: int| 0 <= i < at.len() ==> 0 <= #[trigger] at[i] < n && mask[at[i]],
        forall|p: int| 0 <= p < n && #[trigger] mask[p] ==> at.contains(p),
        forall|values: Seq<ValueV>|
            values.len() >= n ==> #[trigger] kept(values, mask, n) == Seq::new(
                at.len(),
                |i: int| values[at[i]],
            ),
    decreases n,
{
    if n == 0 {
        let at = Seq::<int>::empty();
        assert forall|values: Seq<ValueV>| values.len() >= n implies #[trigger] kept(
            values,
            mask,
            n,
        ) == Seq::new(at.len(), |i: int| values[at[i]]) by {
            assert(kept(values, mask, n) =~= Seq::new(at.len(), |i: int| values[at[i]]));
        }
        at
    } else {
        let before = lemma_kept_positions(mask, n - 1);
        let at = if mask[n - 1] {
            before.push(n - 1)
        } else {
            before
        };
        assert forall|p: int| 0 <= p < n && #[trigger] mask[p] implies at.contains(p) by {
            if p < n - 1 {
                let k = before.index_of(p);
                assert(before.contains(p));
                assert(at[k] == p);
            } else {
                assert(at[at.len() - 1] == p);
            }
        }
        assert forall|values: Seq<ValueV>| values.len() >= n implies #[trigger] kept(
            values,
            mask,
            n,
        ) == Seq::new(at.len(), |i: int| values[at[i]]) by {
            assert(kept(values, mask, n - 1) == Seq::new(before.len(), |i: int| values[before[i]]));
            assert(kept(values, mask, n) =~= Seq::new(at.len(), |i: int| values[at[i]]));
        }
        at
    }
}

/// Filtering keeps exactly the rows that the mask keeps, each once, whole, and
/// in their order.
pub proof fn law_filtering_keeps_the_marked_rows(b: BatchV, mask: Seq<bool>) -> (at: Seq<int>)
    requires
        even(b),
        b.columns.len() > 0,
        mask.len() == b.num_rows(),
    ensures
        filtered_batch(b, mask).names == b.names,
        filtered_batch(b, mask).num_rows() == at.len(),
        forall|i: int, j: int| 0 <= i < j < at.len() ==> #[trigger] at[i] < #[trigger] at[j],
        forall|i: int|
            0 <= i < at.len() ==> 0 <= #[trigger] at[i] < mask.len() && mask[at[i]] && row_of(
                filtered_batch(b, mask),
                i,
            ) == row_of(b, at[i]),
        forall|p: int| 0 <= p < mask.len() && #[trigger] mask[p] ==> at.contains(p),
{
    let n = b.num_rows() as int;
    let at = lemma_kept_positions(mask, n);
    let f = filtered_batch(b, mask);
    assert(b.columns[0].len() == n);
    assert(f.columns[0] == kept(b.columns[0], mask, n));
    assert forall|i: int| 0 <= i < at.len() implies 0 <= #[trigger] at[i] < mask.len()
        && mask[at[i]] && row_of(f, i) == row_of(b, at[i]) by {
        assert forall|c: int| 0 <= c < b.columns.len() implies row_of(f, i)[c] == row_of(
            b,
            at[i],
        )[c] by {
            assert(b.columns[c].len() == n);
            assert(f.columns[c] == kept(b.columns[c], mask, n));
        }
        assert(row_of(f, i) =~= row_of(b, at[i]));
    }
    at
}

// ---- hints for the scan ----

/// A comparison of a column with an integer gives one hint: the same comparison,
/// turned round where the integer stands on the left. `AND` gives the hints of
/// both sides; `OR` gives none, and neither does any other comparison.
pub proof fn law_hints(
    column: Seq<char>,
    op: CompareOp,
    value: i64,
    l: ExprV,
    r: ExprV,
    x: int,
)
    ensures
        ({
            let name = Box::new(ExprV::Column(column));
            let number = Box::new(ExprV::Literal(ValueV::Int(value)));
            let forth = hints(ExprV::Compare { left: name, op, right: number });
            let back = hints(ExprV::Compare { left: number, op, right: name });
            let held = |p: ScanPredicateV|
                match p.op {
                    ScanCompare::Eq => x - p.value == 0,
                    ScanCompare::NotEq => x - p.value != 0,
                    ScanCompare::Lt => x - p.value < 0,
                    ScanCompare::LtEq => x - p.value <= 0,
                    ScanCompare::Gt => x - p.value > 0,
                    ScanCompare::GtEq => x - p.value >= 0,
                };
            &&& forth.len() == 1 && forth[0].column == column && forth[0].value == value
            &&& back.len() == 1 && back[0].column == column && back[0].value == value
            &&& i64::MIN <= x <= i64::MAX ==> held(forth[0]) == value_compare(
                ValueV::Int(x as i64),
                op,
                ValueV::Int(value),
            )
            &&& i64::MIN <= x <= i64::MAX ==> held(back[0]) == value_compare(
                ValueV::Int(value),
                op,
                ValueV::Int(x as i64),
            )
            &&& hints(
                ExprV::Logical { left: Box::new(l), op: LogicalOp::And, right: Box::new(r) },
            ) == hints(l) + hints(r)
            &&& hints(
                ExprV::Logical { left: Box::new(l), op: LogicalOp::Or, right: Box::new(r) },
            ).len() == 0
            &&& l is Column && r is Column ==> hints(
                ExprV::Compare { left: Box::new(l), op, right: Box::new(r) },
            ).len() == 0
            &&& r is Literal && !(r->Literal_0 is Int) ==> hints(
                ExprV::Compare { left: Box::new(l), op, right: Box::new(r) },
            ).len() == 0
        }),
{
}

/// A scan gets the hints of the filter that stands over it, and none without.
pub proof fn law_scan_gets_the_hints(
    e: ExprV,
    table: Seq<char>,
    columns: Option<Seq<Seq<char>>>,
)
    ensures
        ({
            let scan = LogicalPlanV::Scan { table, columns };
            &&& lowered(scan) == (PhysicalPlanV::TableScanExec {
                table,
                projection: columns,
                prune: Seq::empty(),
            })
            &&& lowered(LogicalPlanV::Filter { predicate: e, input: Box::new(scan) }) == (
            PhysicalPlanV::FilterExec {
                predicate: e,
                input: Box::new(
                    PhysicalPlanV::TableScanExec { table, projection: columns, prune: hints(e) },
                ),
            })
        }),
{
    reveal_with_fuel(lowered_under, 3);
}

} // verus!
