//! A small column-store database: typed tables on disk images, a SQL front
//! end, a planner with an optimizer, and a vectorized executor. Every function
//! states what it returns, and Verus proves it.

pub mod assoc;
pub mod bytes;
pub mod catalog;
pub mod checksum;
pub mod checksum_laws;
pub mod checksum_order;
pub mod cli;
pub mod disk;
pub mod error;
pub mod execution;
pub mod parser;
pub mod steps;
pub mod storage;
pub mod text;
pub mod text_laws;
pub mod view_laws;

