//! The feature matrix, held in an `ndarray` two-dimensional array.
use ndarray::{Array, Array2};
use vstd::prelude::*;

verus! {

#[verifier::external_type_specification]
#[verifier::external_body]
pub struct ExShapeError(ndarray::ShapeError);

/// A matrix of `u32` values stored in an `ndarray::Array2`. Verus cannot take
/// the array type itself (its storage parameter is bound by an unsafe trait),
/// so the array is kept out of sight here and described by `matrix_elements`
/// and `matrix_shape`.
#[verifier::external_body]
#[derive(Debug)]
pub struct Matrix {
    array: Array2<u32>,
}

/// The elements of a matrix in logical row-major order (the order of `iter`).
pub uninterp spec fn matrix_elements(m: Matrix) -> Seq<u32>;

/// The number of rows and of columns of a matrix.
pub uninterp spec fn matrix_shape(m: Matrix) -> (usize, usize);

impl Matrix {
    /// Relies on ndarray's `From<Vec<A>>` for a one-dimensional array and on
    /// `ArrayBase::into_shape` (0.15): the vector becomes an array in standard
    /// layout, which `into_shape` rearranges in row-major order when `rows *
    /// columns` equals its length, and rejects when the counts differ. For
    /// nonzero counts the size check passes, since a `Vec` never holds more
    /// than `isize::MAX` bytes.
    #[verifier::external_body]
    pub(crate) fn from_row_major(v: Vec<u32>, rows: usize, columns: usize) -> (r: Result<
        Matrix,
        ndarray::ShapeError,
    >)
        ensures
            r is Ok ==> v@.len() == rows * columns,
            r is Ok ==> matrix_elements(r->Ok_0) == v@,
            r is Ok ==> matrix_shape(r->Ok_0) == (rows, columns),
            v@.len() == rows * columns && rows > 0 && columns > 0 ==> r is Ok,
    {
        Array::from(v).into_shape((rows, columns)).map(|array| Matrix { array })
    }

    /// Relies on ndarray's indexing by `[row, column]`, which panics out of bounds.
    #[verifier::external_body]
    pub(crate) fn get(&self, i: usize, j: usize) -> (r: u32)
        requires
            i < matrix_shape(*self).0,
            j < matrix_shape(*self).1,
        ensures
            r == matrix_elements(*self)[i * matrix_shape(*self).1 + j],
    {
        self.array[[i, j]]
    }
}

} // verus!
