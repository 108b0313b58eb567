//! Row-group pruning hints from a condition.
//!
//! Only comparisons that must hold are taken: `AND` is descended, since each
//! of its sides must hold, and `OR` is not, since neither side alone bounds a
//! group. What is dropped only forgoes a skip; it never changes a result.

use vstd::prelude::*;

use crate::parser::ast::{CompareOp, Expr, ExprV, Literal, LogicalOp};
use crate::storage::{predicates_view, ScanCompare, ScanPredicate, ScanPredicateV, ValueV};

verus! {

/// The scan's operator for a comparison.
pub open spec fn scan_op(op: CompareOp) -> ScanCompare {
    match op {
        CompareOp::Eq => ScanCompare::Eq,
        CompareOp::NotEq => ScanCompare::NotEq,
        CompareOp::Lt => ScanCompare::Lt,
        CompareOp::LtEq => ScanCompare::LtEq,
        CompareOp::Gt => ScanCompare::Gt,
        CompareOp::GtEq => ScanCompare::GtEq,
    }
}

/// The operator for swapped operands: `5 < age` is `age > 5`.
pub open spec fn flipped(op: CompareOp) -> CompareOp {
    match op {
        CompareOp::Eq => CompareOp::Eq,
        CompareOp::NotEq => CompareOp::NotEq,
        CompareOp::Lt => CompareOp::Gt,
        CompareOp::LtEq => CompareOp::GtEq,
        CompareOp::Gt => CompareOp::Lt,
        CompareOp::GtEq => CompareOp::LtEq,
    }
}

/// The hint in `left <op> right`, where one side is a column and the other an
/// integer.
pub open spec fn hint_of(left: ExprV, op: CompareOp, right: ExprV) -> Option<ScanPredicateV> {
    match (left, right) {
        (ExprV::Column(column), ExprV::Literal(ValueV::Int(value))) => Some(
            ScanPredicateV { column, op: scan_op(op), value },
        ),
        (ExprV::Literal(ValueV::Int(value)), ExprV::Column(column)) => Some(
            ScanPredicateV { column, op: scan_op(flipped(op)), value },
        ),
        _ => None,
    }
}

/// The hints in a condition, from left to right.
pub open spec fn hints(e: ExprV) -> Seq<ScanPredicateV>
    decreases e,
{
    match e {
        ExprV::Logical { left, op, right } => if op == LogicalOp::And {
            hints(*left) + hints(*right)
        } else {
            Seq::empty()
        },
        ExprV::Compare { left, op, right } => match hint_of(*left, op, *right) {
            Some(p) => seq![p],
            None => Seq::empty(),
        },
        _ => Seq::empty(),
    }
}

/// Collect the `column <op> integer` comparisons of `expr` that must hold.
pub fn extract_scan_predicates(expr: &Expr) -> (r: Vec<ScanPredicate>)
    ensures
        predicates_view(r@) == hints(expr@),
{
    let mut out: Vec<ScanPredicate> = Vec::new();
    collect(expr, &mut out);
    assert(predicates_view(out@) =~= hints(expr@));
    out
}

fn collect(expr: &Expr, out: &mut Vec<ScanPredicate>)
    ensures
        predicates_view(final(out)@) == predicates_view(old(out)@) + hints(expr@),
    decreases expr,
{
    let ghost before = predicates_view(out@);
    match expr {
        Expr::Logical { left, op, right } => {
            if *op == LogicalOp::And {
                collect(left, out);
                collect(right, out);
                assert(predicates_view(out@) =~= before + (hints(left@) + hints(right@)));
            }
        },
        Expr::Compare { left, op, right } => {
            match as_scan_predicate(left, *op, right) {
                Some(p) => {
                    out.push(p);
                    assert(predicates_view(out@) =~= before + seq![p@]);
                },
                None => {},
            }
        },
        _ => {},
    }
    assert(predicates_view(out@) =~= before + hints(expr@));
}

/// Turn `left <op> right` into a hint when one side is a column and the other
/// an INT literal. With the literal on the left the operator is flipped, so
/// that the hint always reads `column <op> value`.
fn as_scan_predicate(left: &Expr, op: CompareOp, right: &Expr) -> (r: Option<ScanPredicate>)
    ensures
        match r {
            Some(p) => hint_of(left@, op, right@) == Some(p@),
            None => hint_of(left@, op, right@) is None,
        },
{
    match (left, right) {
        (Expr::Column(column), Expr::Literal(Literal::Int(value))) => Some(
            ScanPredicate { column: column.clone(), op: scan_compare(op), value: *value },
        ),
        (Expr::Literal(Literal::Int(value)), Expr::Column(column)) => Some(
            ScanPredicate { column: column.clone(), op: scan_compare(flip(op)), value: *value },
        ),
        _ => None,
    }
}

fn scan_compare(op: CompareOp) -> (r: ScanCompare)
    ensures
        r == scan_op(op),
{
    match op {
        CompareOp::Eq => ScanCompare::Eq,
        CompareOp::NotEq => ScanCompare::NotEq,
        CompareOp::Lt => ScanCompare::Lt,
        CompareOp::LtEq => ScanCompare::LtEq,
        CompareOp::Gt => ScanCompare::Gt,
        CompareOp::GtEq => ScanCompare::GtEq,
    }
}

fn flip(op: CompareOp) -> (r: CompareOp)
    ensures
        r == flipped(op),
{
    match op {
        CompareOp::Eq => CompareOp::Eq,
        CompareOp::NotEq => CompareOp::NotEq,
        CompareOp::Lt => CompareOp::Gt,
        CompareOp::LtEq => CompareOp::GtEq,
        CompareOp::Gt => CompareOp::Lt,
        CompareOp::GtEq => CompareOp::LtEq,
    }
}

} // verus!
