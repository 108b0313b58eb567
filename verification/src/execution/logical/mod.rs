//! The logical layer: a tree of logical operators, bound against the catalog
//! and rewritten by the optimizer. Nothing here reads row data.

pub mod binder;
pub mod optimizer;
pub mod plan;

use vstd::prelude::*;

use crate::error::{outcome, Error};
use crate::execution::logical::binder::bound;
use crate::execution::logical::plan::LogicalPlan;
use crate::parser::ast::Statement;
use crate::storage::Storage;

verus! {

/// Build a validated logical plan for `stmt`, using the catalog behind
/// `storage` to resolve and check table and column references.
pub fn plan<S: Storage>(stmt: &Statement, storage: &S) -> (r: Result<LogicalPlan, Error>)
    ensures
        outcome(r) == bound(storage.store(), stmt@),
{
    binder::bind(stmt, storage)
}

} // verus!
