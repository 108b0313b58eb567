//! Conditions over a column-major batch, one column at a time.
//!
//! A comparison turns its two operands into value vectors and compares them
//! element by element into a selection mask; a logical node combines two
//! masks. NULL handling is two-valued: a comparison that touches NULL is
//! false. So is one between an integer and a text.

use vstd::prelude::*;

use crate::error::{Error, ErrorV};
use crate::execution::physical::batch::even;
use crate::parser::ast::{CompareOp, Expr, ExprV, Literal, LogicalOp};
use crate::storage::{values_view, BatchV, ColumnBatch, Value, ValueV};
use crate::text::{join3, lemma_position, less, position, position_of, same, text_less};

verus! {

/// Whether `x <op> y` holds of two integers.
pub open spec fn int_compare(x: int, op: CompareOp, y: int) -> bool {
    match op {
        CompareOp::Eq => x == y,
        CompareOp::NotEq => x != y,
        CompareOp::Lt => x < y,
        CompareOp::LtEq => x <= y,
        CompareOp::Gt => x > y,
        CompareOp::GtEq => x >= y,
    }
}

/// Whether `x <op> y` holds of two texts, in the order of their bytes.
pub open spec fn text_compare(x: Seq<char>, op: CompareOp, y: Seq<char>) -> bool {
    match op {
        CompareOp::Eq => x == y,
        CompareOp::NotEq => x != y,
        CompareOp::Lt => text_less(x, y),
        CompareOp::LtEq => !text_less(y, x),
        CompareOp::Gt => text_less(y, x),
        CompareOp::GtEq => !text_less(x, y),
    }
}

/// Whether `a <op> b` holds. NULL on either side never matches, nor do two
/// values of different types.
pub open spec fn value_compare(a: ValueV, op: CompareOp, b: ValueV) -> bool {
    match (a, b) {
        (ValueV::Int(x), ValueV::Int(y)) => int_compare(x as int, op, y as int),
        (ValueV::Text(x), ValueV::Text(y)) => text_compare(x, op, y),
        _ => false,
    }
}

/// One side of a comparison: a column, or a literal that stands for every row.
pub enum OperandV {
    Column(Seq<ValueV>),
    Scalar(ValueV),
}

impl OperandV {
    /// The value in row `row`.
    pub open spec fn at(self, row: int) -> ValueV {
        match self {
            OperandV::Column(values) => values[row],
            OperandV::Scalar(v) => v,
        }
    }
}

/// What an operand stands for in a batch.
pub open spec fn operand_of(e: ExprV, b: BatchV) -> Result<OperandV, ErrorV> {
    match e {
        ExprV::Column(name) => match position_of(b.names, name) {
            None => Err(
                ErrorV::Other(
                    "filter references column '"@ + name + "' not present in the scanned batch"@,
                ),
            ),
            Some(i) => Ok(OperandV::Column(b.columns[i])),
        },
        ExprV::Literal(v) => Ok(OperandV::Scalar(v)),
        _ => Err(ErrorV::Other("a comparison operand must be a column or a literal"@)),
    }
}

/// Which rows of a batch meet a condition.
pub open spec fn mask_of(e: ExprV, b: BatchV) -> Result<Seq<bool>, ErrorV>
    decreases e,
{
    match e {
        ExprV::Compare { left, op, right } => match operand_of(*left, b) {
            Err(err) => Err(err),
            Ok(l) => match operand_of(*right, b) {
                Err(err) => Err(err),
                Ok(r) => Ok(
                    Seq::new(b.num_rows(), |row: int| value_compare(l.at(row), op, r.at(row))),
                ),
            },
        },
        ExprV::Logical { left, op, right } => match mask_of(*left, b) {
            Err(err) => Err(err),
            Ok(l) => match mask_of(*right, b) {
                Err(err) => Err(err),
                Ok(r) => Ok(
                    Seq::new(
                        b.num_rows(),
                        |row: int|
                            if op == LogicalOp::And {
                                l[row] && r[row]
                            } else {
                                l[row] || r[row]
                            },
                    ),
                ),
            },
        },
        _ => Err(
            ErrorV::Other(
                "filter predicate must be a boolean expression, not a bare column or literal"@,
            ),
        ),
    }
}

/// What a check of a batch gave back, over views.
pub open spec fn mask_outcome(r: Result<Vec<bool>, Error>) -> Result<Seq<bool>, ErrorV> {
    match r {
        Ok(mask) => Ok(mask@),
        Err(e) => Err(e@),
    }
}

/// A mask has one entry for each row.
pub proof fn lemma_mask_len(e: ExprV, b: BatchV)
    ensures
        mask_of(e, b) matches Ok(mask) ==> mask.len() == b.num_rows(),
{
}

/// Evaluate the condition `predicate` on `batch`: a selection mask with one
/// entry per row, where `true` keeps the row.
pub fn evaluate_predicate(predicate: &Expr, batch: &ColumnBatch) -> (r: Result<Vec<bool>, Error>)
    requires
        even(batch@),
    ensures
        mask_outcome(r) == mask_of(predicate@, batch@),
{
    eval_mask(predicate, batch)
}

/// One side of a comparison, resolved against the batch.
enum Operand<'a> {
    Column(&'a Vec<Value>),
    Scalar(Value),
}

impl<'a> View for Operand<'a> {
    type V = OperandV;

    closed spec fn view(&self) -> OperandV {
        match self {
            Operand::Column(values) => OperandV::Column(values_view(values@)),
            Operand::Scalar(v) => OperandV::Scalar(v@),
        }
    }
}

impl<'a> Operand<'a> {
    /// The value in row `row`.
    fn value_at(&self, row: usize) -> (r: &Value)
        requires
            self matches Operand::Column(values) ==> row < values@.len(),
        ensures
            r@ == self@.at(row as int),
    {
        match self {
            Operand::Column(values) => &values[row],
            Operand::Scalar(v) => v,
        }
    }
}

fn eval_mask(expr: &Expr, batch: &ColumnBatch) -> (r: Result<Vec<bool>, Error>)
    requires
        even(batch@),
    ensures
        mask_outcome(r) == mask_of(expr@, batch@),
    decreases expr,
{
    let rows = batch.num_rows();
    match expr {
        Expr::Compare { left, op, right } => {
            let lhs = match operand(left, batch) {
                Err(e) => {
                    return Err(e);
                },
                Ok(o) => o,
            };
            let rhs = match operand(right, batch) {
                Err(e) => {
                    return Err(e);
                },
                Ok(o) => o,
            };
            let mut mask: Vec<bool> = Vec::new();
            let mut row: usize = 0;
            while row < rows
                invariant
                    row <= rows,
                    mask@.len() == row,
                    lhs matches Operand::Column(values) ==> values@.len() == rows,
                    rhs matches Operand::Column(values) ==> values@.len() == rows,
                    forall|j: int|
                        0 <= j < row ==> #[trigger] mask@[j] == value_compare(
                            lhs@.at(j),
                            *op,
                            rhs@.at(j),
                        ),
                decreases rows - row,
            {
                mask.push(compare(lhs.value_at(row), *op, rhs.value_at(row)));
                row = row + 1;
            }
            proof {
                let l = lhs@;
                let r = rhs@;
                assert(mask@ =~= Seq::new(
                    batch@.num_rows(),
                    |row: int| value_compare(l.at(row), *op, r.at(row)),
                ));
            }
            Ok(mask)
        },
        Expr::Logical { left, op, right } => {
            let lhs = match eval_mask(left, batch) {
                Err(e) => {
                    return Err(e);
                },
                Ok(m) => m,
            };
            let rhs = match eval_mask(right, batch) {
                Err(e) => {
                    return Err(e);
                },
                Ok(m) => m,
            };
            proof {
                lemma_mask_len(left@, batch@);
                lemma_mask_len(right@, batch@);
            }
            let mut mask: Vec<bool> = Vec::new();
            let mut row: usize = 0;
            while row < rows
                invariant
                    row <= rows,
                    mask@.len() == row,
                    lhs@.len() == rows,
                    rhs@.len() == rows,
                    forall|j: int|
                        0 <= j < row ==> #[trigger] mask@[j] == if *op == LogicalOp::And {
                            lhs@[j] && rhs@[j]
                        } else {
                            lhs@[j] || rhs@[j]
                        },
                decreases rows - row,
            {
                let keep = match op {
                    LogicalOp::And => lhs[row] && rhs[row],
                    LogicalOp::Or => lhs[row] || rhs[row],
                };
                mask.push(keep);
                row = row + 1;
            }
            proof {
                let l = lhs@;
                let r = rhs@;
                assert(mask@ =~= Seq::new(
                    batch@.num_rows(),
                    |row: int|
                        if *op == LogicalOp::And {
                            l[row] && r[row]
                        } else {
                            l[row] || r[row]
                        },
                ));
            }
            Ok(mask)
        },
        _ => Err(
            Error::other(
                "filter predicate must be a boolean expression, not a bare column or literal",
            ),
        ),
    }
}

/// Resolve a comparison operand to a column or a literal.
fn operand<'a>(expr: &Expr, batch: &'a ColumnBatch) -> (r: Result<Operand<'a>, Error>)
    requires
        even(batch@),
    ensures
        match r {
            Ok(o) => {
                &&& operand_of(expr@, batch@) == Ok::<OperandV, ErrorV>(o@)
                &&& o matches Operand::Column(values) ==> values@.len() == batch@.num_rows()
            },
            Err(e) => operand_of(expr@, batch@) == Err::<OperandV, ErrorV>(e@),
        },
{
    match expr {
        Expr::Column(name) => {
            proof {
                lemma_position(batch@.names, name@, 0);
            }
            match position(&batch.names, name.as_str()) {
                None => {
                    let m = join3(
                        "filter references column '",
                        name.as_str(),
                        "' not present in the scanned batch",
                    );
                    Err(Error::other(m.as_str()))
                },
                Some(i) => {
                    assert(batch@.columns[i as int] == values_view(batch.columns@[i as int]@));
                    Ok(Operand::Column(&batch.columns[i]))
                },
            }
        },
        Expr::Literal(lit) => Ok(Operand::Scalar(literal_value(lit))),
        _ => Err(Error::other("a comparison operand must be a column or a literal")),
    }
}

/// The value that a literal stands for.
pub fn literal_value(lit: &Literal) -> (r: Value)
    ensures
        r@ == lit@,
{
    match lit {
        Literal::Int(n) => Value::Int(*n),
        Literal::Text(s) => Value::Text(s.clone()),
        Literal::Null => Value::Null,
    }
}

/// Compare two values. NULL on either side, or two types, never match.
pub fn compare(a: &Value, op: CompareOp, b: &Value) -> (r: bool)
    ensures
        r == value_compare(a@, op, b@),
{
    match (a, b) {
        (Value::Int(x), Value::Int(y)) => match op {
            CompareOp::Eq => *x == *y,
            CompareOp::NotEq => *x != *y,
            CompareOp::Lt => *x < *y,
            CompareOp::LtEq => *x <= *y,
            CompareOp::Gt => *x > *y,
            CompareOp::GtEq => *x >= *y,
        },
        (Value::Text(x), Value::Text(y)) => match op {
            CompareOp::Eq => same(x.as_str(), y.as_str()),
            CompareOp::NotEq => !same(x.as_str(), y.as_str()),
            CompareOp::Lt => less(x.as_str(), y.as_str()),
            CompareOp::LtEq => !less(y.as_str(), x.as_str()),
            CompareOp::Gt => less(y.as_str(), x.as_str()),
            CompareOp::GtEq => !less(x.as_str(), y.as_str()),
        },
        _ => false,
    }
}

/// NULL never matches: a comparison with NULL on either side is false,
/// whatever the operator.
pub proof fn law_null_never_matches(v: ValueV, op: CompareOp)
    ensures
        !value_compare(ValueV::Null, op, v),
        !value_compare(v, op, ValueV::Null),
{
}

} // verus!
