//! Loads a comma-separated table into a dataset: a row-major feature matrix,
//! an integer target per row taken from the last column, and the feature names.
//!
//! Numbers are carried as IEEE-754 single-precision bit patterns (`u32`), so the
//! library never does floating-point arithmetic itself. Reading the text as CSV
//! is done by `read_table`; turning each field into a number is the caller's
//! part, and `build_dataset` checks and splits the result.
pub mod dataset;
pub mod error;
pub mod float_bits;
pub mod matrix;
pub mod table;

pub use dataset::{build_dataset, Dataset, Shape, DEFAULT_COLUMNS, DEFAULT_ROWS};
pub use error::LoadError;
pub use float_bits::truncate_to_i32;
pub use table::{read_table, Table};
