use tsl::cost_text::parse_cost_text;
use tsl::triangular::MatrixFormatError;

#[test]
fn parses_lower_triangle_text() {
    let text = b"1\n2 3\n4 5 6\n".to_vec();
    let m = parse_cost_text(&text).unwrap();
    assert_eq!(m.number_of_lines(), 4);
    assert_eq!(*m.get(1, 0), 1);
    assert_eq!(*m.get(2, 1), 3);
    assert_eq!(*m.get(3, 0), 4);
    assert_eq!(*m.get(3, 2), 6);
}

#[test]
fn surrounding_whitespace_is_ignored() {
    let text = b"\n\n  12\r\n 30  7 \t\n\n\n".to_vec();
    let m = parse_cost_text(&text).unwrap();
    assert_eq!(m.number_of_lines(), 3);
    assert_eq!(*m.get(1, 0), 12);
    assert_eq!(*m.get(2, 0), 30);
    assert_eq!(*m.get(2, 1), 7);
}

#[test]
fn non_integer_token_is_rejected() {
    assert_eq!(parse_cost_text(&b"1\n2 x\n".to_vec()).err(), Some(MatrixFormatError::NotAnInteger));
    assert_eq!(parse_cost_text(&b"1\n2 -3\n".to_vec()).err(), Some(MatrixFormatError::NotAnInteger));
    assert_eq!(parse_cost_text(&b"1.5\n".to_vec()).err(), Some(MatrixFormatError::NotAnInteger));
}

#[test]
fn too_large_value_is_rejected() {
    let text = b"1\n2 99999999999999999999999\n".to_vec();
    assert_eq!(parse_cost_text(&text).err(), Some(MatrixFormatError::NotAnInteger));
}

#[test]
fn wrong_count_is_rejected() {
    assert_eq!(
        parse_cost_text(&b"1\n2 3\n4 5\n".to_vec()).err(),
        Some(MatrixFormatError::WrongValueCount(5))
    );
    assert_eq!(
        parse_cost_text(&b"1 2\n".to_vec()).err(),
        Some(MatrixFormatError::WrongValueCount(2))
    );
}

#[test]
fn blank_lines_inside_count() {
    // three text lines, the middle one blank: six values are needed
    assert_eq!(
        parse_cost_text(&b"1\n\n2 3\n".to_vec()).err(),
        Some(MatrixFormatError::WrongValueCount(3))
    );
}

#[test]
fn empty_text_is_an_empty_table() {
    let m = parse_cost_text(&b"  \n ".to_vec()).unwrap();
    assert_eq!(m.number_of_lines(), 1);
}
