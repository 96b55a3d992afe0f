use csv_dataset::{
    build_dataset, read_table, truncate_to_i32, Dataset, LoadError, Shape, Table, DEFAULT_COLUMNS,
    DEFAULT_ROWS,
};

fn parse_fields(table: &Table) -> Vec<Vec<Option<u32>>> {
    table
        .rows
        .iter()
        .map(|row| row.iter().map(|f| f.parse::<f32>().ok().map(f32::to_bits)).collect())
        .collect()
}

fn load(text: &str, shape: Shape) -> Result<Dataset, LoadError> {
    let table = read_table(text.as_bytes())?;
    let values = parse_fields(&table);
    build_dataset(&table.header, &values, shape)
}

fn shape(rows: usize, columns: usize) -> Shape {
    Shape { rows, columns }
}

fn matrix(d: &Dataset) -> Vec<Vec<f32>> {
    (0..d.nrows())
        .map(|i| (0..d.ncols()).map(|j| f32::from_bits(d.record(i, j))).collect())
        .collect()
}

const EXAMPLE: &str = "a,b,label\n1.0,2.0,1\n3.0,4.0,0\n";

#[test]
fn example_table_loads() {
    let d = load(EXAMPLE, shape(2, 2)).unwrap();
    assert_eq!(d.nrows(), 2);
    assert_eq!(d.ncols(), 2);
    assert_eq!(matrix(&d), vec![vec![1.0, 2.0], vec![3.0, 4.0]]);
    assert_eq!(d.targets(), &vec![1, 0]);
    assert_eq!(d.feature_names(), &vec!["a".to_string(), "b".to_string()]);
}

#[test]
fn records_are_row_major() {
    let d = load(EXAMPLE, shape(2, 2)).unwrap();
    let flat: Vec<f32> = (0..4).map(|k| f32::from_bits(d.record(k / 2, k % 2))).collect();
    assert_eq!(flat, vec![1.0, 2.0, 3.0, 4.0]);
    assert_eq!(d.target(1), 0);
}

#[test]
fn read_table_splits_header_and_rows() {
    let t = read_table(EXAMPLE.as_bytes()).unwrap();
    assert_eq!(t.header, vec!["a", "b", "label"]);
    assert_eq!(t.rows, vec![vec!["1.0", "2.0", "1"], vec!["3.0", "4.0", "0"]]);
}

#[test]
fn read_table_rejects_ragged_csv() {
    let r = read_table("a,b,label\n1,2,3\n4,5\n".as_bytes());
    assert!(matches!(r, Err(LoadError::Csv { .. })));
}

#[test]
fn read_table_rejects_invalid_utf8() {
    let r = read_table(&[b'a', b',', 0xff, b'\n', b'1', b',', b'2', b'\n']);
    assert!(matches!(r, Err(LoadError::Csv { .. })));
}

#[test]
fn header_without_rows_fails() {
    assert_eq!(load("a,b,label\n", shape(2, 2)).unwrap_err(), LoadError::NoData);
}

#[test]
fn empty_input_fails() {
    assert_eq!(load("", shape(2, 2)).unwrap_err(), LoadError::EmptyHeader);
}

#[test]
fn label_only_table_fails() {
    assert_eq!(load("label\n1\n2\n", shape(2, 0)).unwrap_err(), LoadError::NoData);
}

#[test]
fn row_count_mismatch_fails() {
    assert_eq!(
        load(EXAMPLE, shape(3, 2)).unwrap_err(),
        LoadError::ShapeMismatch { rows: 2, columns: 2 }
    );
}

#[test]
fn column_count_mismatch_fails() {
    assert_eq!(
        load(EXAMPLE, shape(1, 4)).unwrap_err(),
        LoadError::ShapeMismatch { rows: 2, columns: 2 }
    );
}

#[test]
fn non_number_in_label_fails() {
    let text = "a,b,label\n1.0,2.0,1\n3.0,4.0,yes\n";
    assert_eq!(
        load(text, shape(2, 2)).unwrap_err(),
        LoadError::NotANumber { row: 1, column: 2 }
    );
}

#[test]
fn non_number_in_feature_fails() {
    let text = "a,b,label\n1.0,x,1\n3.0,4.0,0\n";
    assert_eq!(
        load(text, shape(2, 2)).unwrap_err(),
        LoadError::NotANumber { row: 0, column: 1 }
    );
}

#[test]
fn first_non_number_is_reported() {
    let text = "a,b,label\n1.0,2.0,1\nz,4.0,q\n5,y,0\n";
    assert_eq!(
        load(text, shape(3, 2)).unwrap_err(),
        LoadError::NotANumber { row: 1, column: 0 }
    );
}

#[test]
fn non_number_wins_over_shape() {
    let text = "a,b,label\n1.0,2.0,oops\n";
    assert_eq!(
        load(text, shape(5, 5)).unwrap_err(),
        LoadError::NotANumber { row: 0, column: 2 }
    );
}

#[test]
fn ragged_values_fail() {
    let header = vec!["a".to_string(), "label".to_string()];
    let values = vec![vec![Some(1.0f32.to_bits()), Some(0)], vec![Some(0)]];
    assert_eq!(
        build_dataset(&header, &values, shape(2, 1)).unwrap_err(),
        LoadError::RaggedRow { row: 1 }
    );
}

#[test]
fn empty_header_fails() {
    assert_eq!(build_dataset(&vec![], &vec![], shape(0, 0)).unwrap_err(), LoadError::EmptyHeader);
}

#[test]
fn loading_twice_agrees() {
    let d1 = load(EXAMPLE, shape(2, 2)).unwrap();
    let d2 = load(EXAMPLE, shape(2, 2)).unwrap();
    assert_eq!(matrix(&d1), matrix(&d2));
    assert_eq!(d1.targets(), d2.targets());
    assert_eq!(d1.feature_names(), d2.feature_names());
    assert_eq!(
        load("a,b,label\n1,x,0\n", shape(1, 2)).unwrap_err(),
        load("a,b,label\n1,x,0\n", shape(1, 2)).unwrap_err()
    );
}

#[test]
fn labels_are_truncated_toward_zero() {
    let text = "a,label\n1,1.9\n2,-1.9\n3,0.5\n4,-0.5\n5,7\n";
    let d = load(text, shape(5, 1)).unwrap();
    assert_eq!(d.targets(), &vec![1, -1, 0, 0, 7]);
}

#[test]
fn default_shape_table_loads() {
    let mut text = String::new();
    let names: Vec<String> = (0..=DEFAULT_COLUMNS).map(|j| format!("c{}", j)).collect();
    text.push_str(&names.join(","));
    text.push('\n');
    for i in 0..DEFAULT_ROWS {
        let row: Vec<String> = (0..=DEFAULT_COLUMNS).map(|j| format!("{}.5", i * 100 + j)).collect();
        text.push_str(&row.join(","));
        text.push('\n');
    }
    let d = load(&text, Shape::default_shape()).unwrap();
    assert_eq!(d.nrows(), 303);
    assert_eq!(d.ncols(), 13);
    assert_eq!(d.feature_names().len(), 13);
    assert_eq!(d.feature_names()[12], "c12");
    assert_eq!(f32::from_bits(d.record(302, 12)), 30212.5);
    assert_eq!(d.target(302), 30213);
    assert_eq!(d.targets().len(), 303);
}

#[test]
fn default_shape_rejects_small_table() {
    assert_eq!(
        load(EXAMPLE, Shape::default_shape()).unwrap_err(),
        LoadError::ShapeMismatch { rows: 2, columns: 2 }
    );
}

#[test]
fn truncation_special_values() {
    let t = |x: f32| truncate_to_i32(x.to_bits());
    assert_eq!(t(f32::NAN), 0);
    assert_eq!(t(f32::INFINITY), i32::MAX);
    assert_eq!(t(f32::NEG_INFINITY), i32::MIN);
    assert_eq!(t(3.0e9), i32::MAX);
    assert_eq!(t(-3.0e9), i32::MIN);
    assert_eq!(t(-2147483648.0), i32::MIN);
    assert_eq!(t(2147483520.0), 2147483520);
    assert_eq!(t(1.0e-40), 0);
    assert_eq!(t(-0.0), 0);
    assert_eq!(t(123.75), 123);
    assert_eq!(t(-123.75), -123);
    assert_eq!(t(16777217.0), 16777216);
}

#[test]
fn truncation_agrees_with_cast() {
    let mut bits: u32 = 0;
    loop {
        assert_eq!(truncate_to_i32(bits), f32::from_bits(bits) as i32, "bits {:#x}", bits);
        match bits.checked_add(40_009) {
            Some(next) => bits = next,
            None => break,
        }
    }
}
