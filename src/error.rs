//! Why a table could not be loaded.
use vstd::prelude::*;

verus! {

#[derive(Debug, Clone, PartialEq, Eq)]
pub enum LoadError {
    /// The CSV reader rejected the input; the message is the reader's own.
    Csv { message: String },
    /// The header names no column at all, so there is no label column.
    EmptyHeader,
    /// Data row `row` (counted from 0, header excluded) has a different number
    /// of fields than the header.
    RaggedRow { row: usize },
    /// The field at data row `row`, column `column` is not a number.
    NotANumber { row: usize, column: usize },
    /// There are no data rows, or no feature column besides the label.
    NoData,
    /// The table has `rows` data rows and `columns` feature columns, which is
    /// not the shape the loader was configured for.
    ShapeMismatch { rows: usize, columns: usize },
}

} // verus!
