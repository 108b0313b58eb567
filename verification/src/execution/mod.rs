//! Query planning and execution: the logical layer says what a query does, the
//! physical layer how it runs against storage.

pub mod binding_laws;
pub mod change_laws;
pub mod condition_laws;
pub mod logical;
pub mod operator_laws;
pub mod physical;
pub mod query_laws;
pub mod render;
pub mod render_laws;
pub mod select_laws;
pub mod statement_laws;
