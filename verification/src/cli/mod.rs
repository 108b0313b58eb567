//! What the commands of the command line compute: records from their text
//! forms, the lines that are shown, the checks of a database, and the data of a
//! benchmark.

pub mod bench;
pub mod bench_laws;
pub mod commands;
pub mod doctor;
pub mod laws;
pub mod values;
