//! The physical layer: a tree of operators that the executor drives against
//! storage. Operators pass column-major batches on through a lazy stream, so
//! that a limit can stop early and a scan can skip row groups.

pub mod batch;
pub mod executor;
pub mod expr;
pub mod lower;
pub mod order;
pub mod plan;
pub mod prune;
pub mod result;
pub mod sort;
pub mod stream;
