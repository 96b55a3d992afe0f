//! Splitting a parsed table into a feature matrix, a target vector and the
//! feature names.
use crate::error::LoadError;
use crate::matrix::{matrix_elements, matrix_shape, Matrix};
use crate::float_bits::{truncate_spec, truncate_to_i32};
use crate::table::{csv_header_of, csv_records_of, rows_view, strings_view, Table};
use vstd::prelude::*;

verus! {

/// Number of data rows the loader expects by default.
pub const DEFAULT_ROWS: usize = 303;

/// Number of feature columns the loader expects by default (the label column
/// comes on top of these).
pub const DEFAULT_COLUMNS: usize = 13;

/// The shape a loaded feature matrix must have.
#[derive(Debug, Clone, Copy, PartialEq, Eq)]
pub struct Shape {
    pub rows: usize,
    pub columns: usize,
}

impl Shape {
    /// The default shape: `DEFAULT_ROWS` by `DEFAULT_COLUMNS`.
    pub fn default_shape() -> (r: Shape)
        ensures
            r.rows == DEFAULT_ROWS,
            r.columns == DEFAULT_COLUMNS,
    {
        Shape { rows: DEFAULT_ROWS, columns: DEFAULT_COLUMNS }
    }
}

/// What a dataset holds, as mathematical values.
pub struct DatasetView {
    pub rows: nat,
    pub columns: nat,
    /// `records[i][j]` is the feature at sample `i`, feature column `j`.
    pub records: Seq<Seq<u32>>,
    pub targets: Seq<i32>,
    pub feature_names: Seq<Seq<char>>,
}

/// A feature matrix of single-precision numbers (held as their bit patterns),
/// stored row-major, with one integer target per row and one name per column.
#[derive(Debug)]
pub struct Dataset {
    records: Matrix,
    rows: usize,
    columns: usize,
    targets: Vec<i32>,
    feature_names: Vec<String>,
}

impl Dataset {
    #[verifier::type_invariant]
    spec fn well_formed(self) -> bool {
        &&& matrix_shape(self.records) == (self.rows, self.columns)
        &&& matrix_elements(self.records).len() == self.rows * self.columns
        &&& self.targets@.len() == self.rows
        &&& self.feature_names@.len() == self.columns
    }
}

impl View for Dataset {
    type V = DatasetView;

    closed spec fn view(&self) -> DatasetView {
        DatasetView {
            rows: self.rows as nat,
            columns: self.columns as nat,
            records: Seq::new(
                self.rows as nat,
                |i: int| Seq::new(self.columns as nat, |j: int| matrix_elements(self.records)[i * self.columns + j]),
            ),
            targets: self.targets@,
            feature_names: strings_view(self.feature_names@),
        }
    }
}

impl Dataset {
    /// Number of samples (rows of the feature matrix).
    pub fn nrows(&self) -> (r: usize)
        ensures
            r == self@.rows,
    {
        self.rows
    }

    /// Number of features (columns of the feature matrix).
    pub fn ncols(&self) -> (r: usize)
        ensures
            r == self@.columns,
    {
        self.columns
    }

    /// The feature at sample `i`, feature column `j`.
    pub fn record(&self, i: usize, j: usize) -> (r: u32)
        requires
            i < self@.rows,
            j < self@.columns,
        ensures
            r == self@.records[i as int][j as int],
    {
        proof {
            use_type_invariant(self);
        }
        self.records.get(i, j)
    }

    /// The target of sample `i`.
    pub fn target(&self, i: usize) -> (r: i32)
        requires
            i < self@.rows,
        ensures
            r == self@.targets[i as int],
    {
        proof {
            use_type_invariant(self);
        }
        self.targets[i]
    }

    /// The targets, one per sample.
    pub fn targets(&self) -> (r: &Vec<i32>)
        ensures
            r@ == self@.targets,
            r@.len() == self@.rows,
    {
        proof {
            use_type_invariant(self);
        }
        &self.targets
    }

    /// The feature names, one per column.
    pub fn feature_names(&self) -> (r: &Vec<String>)
        ensures
            strings_view(r@) == self@.feature_names,
            r@.len() == self@.columns,
    {
        proof {
            use_type_invariant(self);
        }
        &self.feature_names
    }
}

/// Index of the first field of `row` at or after `j` that is not a number.
pub open spec fn missing_from(row: Seq<Option<u32>>, j: int) -> Option<int>
    decreases row.len() - j,
{
    if 0 <= j < row.len() {
        if row[j] is None {
            Some(j)
        } else {
            missing_from(row, j + 1)
        }
    } else {
        None
    }
}

/// The first problem in data rows `i..` of a table whose header has `width`
/// columns: a row of the wrong length, or a field that is not a number.
pub open spec fn problem_from(width: nat, values: Seq<Seq<Option<u32>>>, i: int) -> Option<
    LoadError,
>
    decreases values.len() - i,
{
    if 0 <= i < values.len() {
        if values[i].len() != width {
            Some(LoadError::RaggedRow { row: i as usize })
        } else if let Some(j) = missing_from(values[i], 0) {
            Some(LoadError::NotANumber { row: i as usize, column: j as usize })
        } else {
            problem_from(width, values, i + 1)
        }
    } else {
        None
    }
}

/// The parsed fields of each data row, as sequences.
pub open spec fn values_view(values: Seq<Vec<Option<u32>>>) -> Seq<Seq<Option<u32>>> {
    values.map_values(|row: Vec<Option<u32>>| row@)
}

/// The first `f` fields of a row whose fields are all numbers.
pub open spec fn features_of_row(row: Seq<Option<u32>>, f: nat) -> Seq<u32> {
    Seq::new(f, |j: int| row[j]->Some_0)
}

/// The result of loading a table with this header and these parsed fields
/// (`None` for a field that is not a number) into a matrix of `shape`.
pub open spec fn dataset_result(
    header: Seq<Seq<char>>,
    values: Seq<Seq<Option<u32>>>,
    shape: Shape,
) -> Result<DatasetView, LoadError> {
    if header.len() == 0 {
        Err(LoadError::EmptyHeader)
    } else if let Some(e) = problem_from(header.len(), values, 0) {
        Err(e)
    } else {
        let f = (header.len() - 1) as nat;
        let n = values.len();
        if n == 0 || f == 0 {
            Err(LoadError::NoData)
        } else if n != shape.rows || f != shape.columns {
            Err(LoadError::ShapeMismatch { rows: n as usize, columns: f as usize })
        } else {
            Ok(
                DatasetView {
                    rows: n,
                    columns: f,
                    records: Seq::new(n, |i: int| features_of_row(values[i], f)),
                    targets: Seq::new(n, |i: int| truncate_spec(values[i][f as int]->Some_0)),
                    feature_names: header.take(f as int),
                },
            )
        }
    }
}

/// Index of the first field of `row` that is not a number.
fn first_missing(row: &Vec<Option<u32>>) -> (r: Option<usize>)
    ensures
        r is None ==> missing_from(row@, 0) is None,
        r is Some ==> missing_from(row@, 0) == Some(r->Some_0 as int),
        r is None ==> forall|j: int| 0 <= j < row@.len() ==> (#[trigger] row@[j]) is Some,
{
    let mut j: usize = 0;
    while j < row.len()
        invariant
            j <= row@.len(),
            missing_from(row@, 0) == missing_from(row@, j as int),
            forall|k: int| 0 <= k < j ==> (#[trigger] row@[k]) is Some,
        decreases row@.len() - j,
    {
        if row[j].is_none() {
            return Some(j);
        }
        j += 1;
    }
    None
}


/// The features of rows `0..i`, concatenated in row-major order.
pub open spec fn flatten_rows(values: Seq<Seq<Option<u32>>>, f: nat, i: nat) -> Seq<u32>
    decreases i,
{
    if i == 0 {
        seq![]
    } else {
        flatten_rows(values, f, (i - 1) as nat) + features_of_row(values[i - 1], f)
    }
}

proof fn lemma_flatten_len(values: Seq<Seq<Option<u32>>>, f: nat, i: nat)
    ensures
        flatten_rows(values, f, i).len() == i * f,
    decreases i,
{
    if i > 0 {
        let p = (i - 1) as nat;
        lemma_flatten_len(values, f, p);
        assert(p * f + f == i * f) by (nonlinear_arith)
            requires
                p + 1 == i,
        ;
    } else {
        assert(i * f == 0) by (nonlinear_arith)
            requires
                i == 0,
        ;
    }
}

proof fn lemma_flatten_index(values: Seq<Seq<Option<u32>>>, f: nat, i: nat, a: int, b: int)
    requires
        0 <= a < i,
        0 <= b < f,
    ensures
        a * f + b < i * f,
        flatten_rows(values, f, i)[a * f + b] == values[a][b]->Some_0,
    decreases i,
{
    lemma_flatten_len(values, f, (i - 1) as nat);
    if a == i - 1 {
        assert(a * f + b < i * f) by (nonlinear_arith)
            requires
                a == i - 1,
                b < f,
        ;
    } else {
        lemma_flatten_index(values, f, (i - 1) as nat, a, b);
        assert((i - 1) * f <= i * f) by (nonlinear_arith);
    }
}

/// Builds a dataset from a header and the parsed fields of each data row
/// (`None` for a field that is not a number). The last column is the label:
/// each row's target is its last field truncated toward zero. The other
/// columns are the features, whose names are the header's leading entries.
/// The table must have exactly `shape.rows` data rows and `shape.columns`
/// feature columns.
///
/// Errors, in the order they are looked for: `EmptyHeader` when the header
/// is empty; the first row, in order, of the wrong width (`RaggedRow`) or
/// holding a field that is not a number (`NotANumber`, at its first such
/// field); `NoData` when there are no rows or no feature columns;
/// `ShapeMismatch` when the counts differ from `shape`.
pub fn build_dataset(header: &Vec<String>, values: &Vec<Vec<Option<u32>>>, shape: Shape) -> (r:
    Result<Dataset, LoadError>)
    ensures
        match r {
            Ok(d) => dataset_result(strings_view(header@), values_view(values@), shape) == Ok::<
                DatasetView,
                LoadError,
            >(d@),
            Err(e) => dataset_result(strings_view(header@), values_view(values@), shape) == Err::<
                DatasetView,
                LoadError,
            >(e),
        },
{
    let ghost hv = strings_view(header@);
    let ghost vv = values_view(values@);
    let width = header.len();
    if width == 0 {
        return Err(LoadError::EmptyHeader);
    }
    let n = values.len();
    let mut i: usize = 0;
    while i < n
        invariant
            vv == values_view(values@),
            hv == strings_view(header@),
            n == vv.len(),
            width == hv.len(),
            width > 0,
            i <= n,
            problem_from(width as nat, vv, 0) == problem_from(width as nat, vv, i as int),
            forall|a: int, b: int|
                0 <= a < i && 0 <= b < width ==> (#[trigger] vv[a][b]) is Some && vv[a].len()
                    == width,
        decreases n - i,
    {
        let row = &values[i];
        assert(row@ == vv[i as int]);
        if row.len() != width {
            return Err(LoadError::RaggedRow { row: i });
        }
        match first_missing(row) {
            Some(j) => {
                return Err(LoadError::NotANumber { row: i, column: j });
            },
            None => {},
        }
        i += 1;
    }
    let f = width - 1;
    if n == 0 || f == 0 {
        return Err(LoadError::NoData);
    }
    if n != shape.rows || f != shape.columns {
        return Err(LoadError::ShapeMismatch { rows: n, columns: f });
    }
    let mut records: Vec<u32> = Vec::new();
    let mut targets: Vec<i32> = Vec::new();
    let mut i: usize = 0;
    while i < n
        invariant
            vv == values_view(values@),
            n == vv.len(),
            width == hv.len(),
            f == width - 1,
            i <= n,
            forall|a: int, b: int|
                0 <= a < n && 0 <= b < width ==> (#[trigger] vv[a][b]) is Some && vv[a].len()
                    == width,
            records@ == flatten_rows(vv, f as nat, i as nat),
            targets@.len() == i,
            forall|a: int| 0 <= a < i ==> #[trigger] targets@[a] == truncate_spec(vv[a][f as int]->Some_0),
        decreases n - i,
    {
        let row = &values[i];
        assert(row@ == vv[i as int]);
        let ghost start = records@;
        let mut j: usize = 0;
        while j < f
            invariant
                vv == values_view(values@),
                row@ == vv[i as int],
                i < n,
                n == vv.len(),
                width == hv.len(),
                f == width - 1,
                j <= f,
                forall|a: int, b: int|
                    0 <= a < n && 0 <= b < width ==> (#[trigger] vv[a][b]) is Some && vv[a].len()
                        == width,
                records@ == start + features_of_row(vv[i as int], f as nat).take(j as int),
            decreases f - j,
        {
            assert(vv[i as int][j as int] is Some);
            let x = row[j].unwrap();
            records.push(x);
            assert(features_of_row(vv[i as int], f as nat).take(j + 1) =~= features_of_row(
                vv[i as int],
                f as nat,
            ).take(j as int).push(x));
            j += 1;
        }
        assert(features_of_row(vv[i as int], f as nat).take(f as int) =~= features_of_row(
            vv[i as int],
            f as nat,
        ));
        assert(vv[i as int][f as int] is Some);
        let t = truncate_to_i32(row[f].unwrap());
        targets.push(t);
        i += 1;
    }
    let mut names: Vec<String> = Vec::new();
    let mut k: usize = 0;
    while k < f
        invariant
            width == hv.len(),
            hv == strings_view(header@),
            f == width - 1,
            k <= f,
            names@.len() == k,
            strings_view(names@) =~= hv.take(k as int),
        decreases f - k,
    {
        let name = header[k].clone();
        names.push(name);
        assert(strings_view(names@) =~= hv.take(k + 1));
        k += 1;
    }
    proof {
        lemma_flatten_len(vv, f as nat, n as nat);
    }
    let matrix = match Matrix::from_row_major(records, n, f) {
        Ok(m) => m,
        Err(_) => {
            return Err(LoadError::ShapeMismatch { rows: n, columns: f });
        },
    };
    let d = Dataset { records: matrix, rows: n, columns: f, targets, feature_names: names };
    proof {
        let spec_records = Seq::new(n as nat, |a: int| features_of_row(vv[a], f as nat));
        assert forall|a: int| 0 <= a < n implies #[trigger] d@.records[a] =~= spec_records[a] by {
            assert forall|b: int| 0 <= b < f implies d@.records[a][b] == spec_records[a][b] by {
                lemma_flatten_index(vv, f as nat, n as nat, a, b);
            }
        }
        assert(d@.records =~= spec_records);
        assert(d@.targets =~= Seq::new(n as nat, |a: int| truncate_spec(vv[a][f as int]->Some_0)));
        assert(problem_from(width as nat, vv, n as int) is None);
    }
    Ok(d)
}


/// A field that is not a number in row `i` at or after column `j` is found.
proof fn lemma_missing_found(row: Seq<Option<u32>>, start: int, j: int)
    requires
        0 <= start <= j < row.len(),
        row[j] is None,
    ensures
        missing_from(row, start) is Some,
    decreases j - start,
{
    if row[start] is Some {
        lemma_missing_found(row, start + 1, j);
    }
}

/// A bad row at or after `start` is reported as some problem.
proof fn lemma_problem_found(
    width: nat,
    values: Seq<Seq<Option<u32>>>,
    start: int,
    i: int,
    j: int,
)
    requires
        0 <= start <= i < values.len(),
        0 <= j < values[i].len(),
        values[i][j] is None,
    ensures
        problem_from(width, values, start) is Some,
        (forall|k: int| 0 <= k < values.len() ==> (#[trigger] values[k]).len() == width)
            ==> problem_from(width, values, start) is Some
            && problem_from(width, values, start)->Some_0 is NotANumber,
    decreases i - start,
{
    if start == i {
        lemma_missing_found(values[i], 0, j);
    } else if values[start].len() == width && missing_from(values[start], 0) is None {
        lemma_problem_found(width, values, start + 1, i, j);
    }
}

/// No problem from `start` on means every row from there has the header's
/// width and holds numbers only.
proof fn lemma_no_problem(width: nat, values: Seq<Seq<Option<u32>>>, start: int, i: int, j: int)
    requires
        0 <= start <= i < values.len(),
        problem_from(width, values, start) is None,
    ensures
        values[i].len() == width,
        0 <= j < width ==> values[i][j] is Some,
    decreases i - start,
{
    if start < i {
        lemma_no_problem(width, values, start + 1, i, j);
    } else if 0 <= j < width && values[i][j] is None {
        lemma_missing_found(values[i], 0, j);
    }
}

/// A table whose header has `shape.columns + 1` names and whose
/// `shape.rows` data rows each hold that many numbers loads successfully,
/// into a matrix of exactly that shape, one target per row, and the first
/// `shape.columns` header names as feature names.
pub proof fn lemma_well_formed_table_loads(
    header: Seq<Seq<char>>,
    values: Seq<Seq<Option<u32>>>,
    shape: Shape,
)
    requires
        shape.rows > 0,
        shape.columns > 0,
        header.len() == shape.columns + 1,
        values.len() == shape.rows,
        forall|i: int| 0 <= i < values.len() ==> (#[trigger] values[i]).len() == header.len(),
        forall|i: int, j: int|
            0 <= i < values.len() && 0 <= j < header.len() ==> (#[trigger] values[i][j]) is Some,
    ensures
        dataset_result(header, values, shape) is Ok,
        ({
            let d = dataset_result(header, values, shape)->Ok_0;
            &&& d.rows == shape.rows
            &&& d.columns == shape.columns
            &&& d.records.len() == shape.rows
            &&& forall|i: int| 0 <= i < d.rows ==> (#[trigger] d.records[i]).len() == shape.columns
            &&& d.targets.len() == shape.rows
            &&& d.feature_names == header.take(shape.columns as int)
        }),
{
    if problem_from(header.len(), values, 0) is Some {
        lemma_some_problem_has_cause(header.len(), values, 0);
    }
}

/// A reported problem comes from a row of the wrong width or a field that is
/// not a number.
proof fn lemma_some_problem_has_cause(width: nat, values: Seq<Seq<Option<u32>>>, start: int)
    requires
        0 <= start,
        problem_from(width, values, start) is Some,
    ensures
        exists|i: int|
            start <= i < values.len() && ((#[trigger] values[i]).len() != width || exists|j: int|
                0 <= j < values[i].len() && (#[trigger] values[i][j]) is None),
    decreases values.len() - start,
{
    if start < values.len() {
        if values[start].len() != width {
        } else if missing_from(values[start], 0) is Some {
            let j = missing_from(values[start], 0)->Some_0;
            lemma_missing_in_range(values[start], 0);
            assert(values[start][j] is None);
        } else {
            lemma_some_problem_has_cause(width, values, start + 1);
        }
    }
}

proof fn lemma_missing_in_range(row: Seq<Option<u32>>, start: int)
    requires
        missing_from(row, start) is Some,
    ensures
        start <= missing_from(row, start)->Some_0 < row.len(),
        row[missing_from(row, start)->Some_0] is None,
    decreases row.len() - start,
{
    if 0 <= start < row.len() && row[start] is Some {
        lemma_missing_in_range(row, start + 1);
    }
}

/// Every feature of a loaded dataset is the number parsed from the field at
/// the same row and column of the table.
pub proof fn lemma_features_are_fields(
    header: Seq<Seq<char>>,
    values: Seq<Seq<Option<u32>>>,
    shape: Shape,
    i: int,
    j: int,
)
    requires
        dataset_result(header, values, shape) is Ok,
        0 <= i < dataset_result(header, values, shape)->Ok_0.rows,
        0 <= j < dataset_result(header, values, shape)->Ok_0.columns,
    ensures
        values[i][j] is Some,
        dataset_result(header, values, shape)->Ok_0.records[i][j] == values[i][j]->Some_0,
{
    lemma_no_problem(header.len(), values, 0, i, j);
}

/// The target of each row of a loaded dataset is the row's last field,
/// truncated toward zero to an integer as `as i32` does.
pub proof fn lemma_target_is_truncated_label(
    header: Seq<Seq<char>>,
    values: Seq<Seq<Option<u32>>>,
    shape: Shape,
    i: int,
)
    requires
        dataset_result(header, values, shape) is Ok,
        0 <= i < dataset_result(header, values, shape)->Ok_0.rows,
    ensures
        values[i].len() == header.len(),
        values[i].last() is Some,
        dataset_result(header, values, shape)->Ok_0.targets[i] == truncate_spec(
            values[i].last()->Some_0,
        ),
{
    lemma_no_problem(header.len(), values, 0, i, header.len() - 1);
}

/// Loading the same table twice gives the same result both times: the same
/// matrix, targets and names, or the same error.
pub proof fn lemma_loading_twice_agrees(
    header: Seq<Seq<char>>,
    values: Seq<Seq<Option<u32>>>,
    shape: Shape,
    first: Result<DatasetView, LoadError>,
    second: Result<DatasetView, LoadError>,
)
    requires
        first == dataset_result(header, values, shape),
        second == dataset_result(header, values, shape),
    ensures
        first == second,
{
}

/// Reading the same bytes twice as CSV gives the same header and records.
pub proof fn lemma_reading_twice_agrees(input: Seq<u8>, first: Table, second: Table)
    requires
        csv_header_of(input) == Some(strings_view(first.header@)),
        csv_records_of(input) == Some(rows_view(first.rows@)),
        csv_header_of(input) == Some(strings_view(second.header@)),
        csv_records_of(input) == Some(rows_view(second.rows@)),
    ensures
        strings_view(first.header@) == strings_view(second.header@),
        rows_view(first.rows@) == rows_view(second.rows@),
{
}

/// A table with no data rows, or whose row count or feature count differs
/// from the configured shape, never loads.
pub proof fn lemma_wrong_shape_fails(
    header: Seq<Seq<char>>,
    values: Seq<Seq<Option<u32>>>,
    shape: Shape,
)
    requires
        values.len() == 0 || values.len() != shape.rows || header.len() != shape.columns + 1,
    ensures
        dataset_result(header, values, shape) is Err,
{
}

/// A field that is not a number, in any data row and any column (the label
/// column included), makes loading fail; where every row has the header's
/// width, the failure is a `NotANumber` error.
pub proof fn lemma_non_number_fails(
    header: Seq<Seq<char>>,
    values: Seq<Seq<Option<u32>>>,
    shape: Shape,
    i: int,
    j: int,
)
    requires
        0 <= i < values.len(),
        0 <= j < values[i].len(),
        values[i][j] is None,
    ensures
        dataset_result(header, values, shape) is Err,
        header.len() > 0 && (forall|k: int|
            0 <= k < values.len() ==> (#[trigger] values[k]).len() == header.len())
            ==> dataset_result(header, values, shape)->Err_0 is NotANumber,
{
    if header.len() > 0 {
        lemma_problem_found(header.len(), values, 0, i, j);
    }
}

/// A dataset that loads has at least one row and at least one feature.
pub proof fn lemma_loaded_is_never_empty(
    header: Seq<Seq<char>>,
    values: Seq<Seq<Option<u32>>>,
    shape: Shape,
)
    requires
        dataset_result(header, values, shape) is Ok,
    ensures
        dataset_result(header, values, shape)->Ok_0.rows > 0,
        dataset_result(header, values, shape)->Ok_0.columns > 0,
{
}

} // verus!
