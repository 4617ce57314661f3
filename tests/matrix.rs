use tsl::triangular::{MatrixFormatError, MatrixIndexError, TriangularMatrix};

fn sample() -> TriangularMatrix<usize> {
    // d(1,0)=1, d(2,0)=2, d(2,1)=3, d(3,0)=4, d(3,1)=5, d(3,2)=6
    TriangularMatrix::from_values(vec![1, 2, 3, 4, 5, 6], 4).unwrap()
}

#[test]
fn load_and_read_back_every_cell() {
    let values: Vec<usize> = vec![1, 2, 3, 4, 5, 6];
    let m = TriangularMatrix::from_values(values.clone(), 4).unwrap();
    let mut read = Vec::new();
    for line in 1..4 {
        for column in 0..line {
            read.push(*m.get(line, column));
        }
    }
    assert_eq!(read, values);
    assert_eq!(m.number_of_lines(), 4);
}

#[test]
fn wrong_value_count_is_rejected() {
    let r = TriangularMatrix::from_values(vec![1usize, 2, 3, 4, 5], 4);
    assert_eq!(r.err(), Some(MatrixFormatError::WrongValueCount(5)));
    let r = TriangularMatrix::from_values(vec![1usize, 2, 3, 4, 5, 6, 7], 4);
    assert_eq!(r.err(), Some(MatrixFormatError::WrongValueCount(7)));
}

#[test]
fn empty_table_loads() {
    let r = TriangularMatrix::<usize>::from_values(Vec::new(), 1);
    assert!(r.is_ok());
}

#[test]
fn get_is_stable() {
    let m = sample();
    assert_eq!(*m.get(3, 1), *m.get(3, 1));
    assert_eq!(*m.get(3, 1), 5);
    assert_eq!(*m.get(2, 1), 3);
}

#[test]
fn check_index_accepts_cells_below_the_diagonal() {
    let m = sample();
    for line in 1..4 {
        for column in 0..line {
            assert_eq!(m.check_index(line, column), Ok(()));
        }
    }
}

#[test]
fn check_index_rejects_diagonal_and_upper_half() {
    let m = sample();
    assert_eq!(m.check_index(2, 2), Err(MatrixIndexError::ColumnNotBelowLine));
    assert_eq!(m.check_index(1, 3), Err(MatrixIndexError::ColumnNotBelowLine));
    assert_eq!(m.check_index(0, 0), Err(MatrixIndexError::ColumnNotBelowLine));
}

#[test]
fn check_index_rejects_lines_past_the_end() {
    let m = sample();
    assert_eq!(m.check_index(4, 0), Err(MatrixIndexError::LineOutOfRange));
    assert_eq!(m.check_index(9, 3), Err(MatrixIndexError::LineOutOfRange));
}

#[test]
fn set_changes_one_cell() {
    let mut m = sample();
    m.set(3, 2, 60);
    assert_eq!(*m.get(3, 2), 60);
    assert_eq!(*m.get(3, 1), 5);
    assert_eq!(*m.get(1, 0), 1);
}

#[test]
fn filled_tables() {
    let f = TriangularMatrix::<bool>::filled_false(4);
    assert_eq!(f.number_of_lines(), 4);
    for line in 1..4 {
        for column in 0..line {
            assert!(!*f.get(line, column));
        }
    }
    let z = TriangularMatrix::<usize>::filled_zeros(5);
    assert_eq!(*z.get(4, 3), 0);
    assert_eq!(*z.get(1, 0), 0);
}

#[test]
fn enumerate_walks_row_major() {
    let m = sample();
    let mut it = m.enumerate_indexes();
    let mut seen = Vec::new();
    while let Some((line, column, value)) = it.next() {
        seen.push((line, column, *value));
    }
    assert_eq!(
        seen,
        vec![(1, 0, 1), (2, 0, 2), (2, 1, 3), (3, 0, 4), (3, 1, 5), (3, 2, 6)]
    );
    assert!(it.next().is_none());
}

#[test]
fn enumerate_from_starts_mid_table() {
    let m = sample();
    let mut it = m.enumerate_from(2, 1);
    assert_eq!(it.next().map(|(l, c, v)| (l, c, *v)), Some((2, 1, 3)));
    assert_eq!(it.next().map(|(l, c, v)| (l, c, *v)), Some((3, 0, 4)));
    assert_eq!(it.next().map(|(l, c, v)| (l, c, *v)), Some((3, 1, 5)));
    assert_eq!(it.next().map(|(l, c, v)| (l, c, *v)), Some((3, 2, 6)));
    assert!(it.next().is_none());
}

#[test]
fn max_and_min() {
    let m = TriangularMatrix::from_values(vec![7usize, 2, 9, 4, 1, 6], 4).unwrap();
    assert_eq!(*m.get_max(), 9);
    assert_eq!(*m.get_min(), 1);
}
