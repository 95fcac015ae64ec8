//! Duplicate-record detection over tabular data.
//!
//! The engine flags probable duplicates across one or two tabular datasets,
//! either by approximate matching of text fields (bounded edit distance over
//! normalized keys) or by proximity matching of fixed-point geographic
//! coordinates. File reading and writing, argument handling and prompting are
//! left to a thin unverified shell around this library.

pub mod models;
pub mod normalize;
pub mod distance;
pub mod seqs;
pub mod index;
pub mod aggregate;
pub mod fields;
pub mod searchable;
pub mod file;
pub mod execution;
