//! What a database knows of its tables: schemas, the table index, and the
//! marker file that says a directory is a database.

pub mod files;
pub mod laws;
pub mod metadata;
pub mod naming_laws;
pub mod schema;
pub mod tables;
