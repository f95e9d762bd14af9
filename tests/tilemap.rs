use raycaster::tilemap::{check_map, parse_map, MapError};

#[test]
fn parses_rows_and_skips_blank_lines() {
    let text = b"111\n\n101\n111\n\n".to_vec();
    let m = parse_map(&text).unwrap();
    assert_eq!(m, vec![vec![1, 1, 1], vec![1, 0, 1], vec![1, 1, 1]]);
}

#[test]
fn last_line_without_newline_counts() {
    let m = parse_map(&b"1111\n1201\n1111".to_vec()).unwrap();
    assert_eq!(m[1], vec![1, 2, 0, 1]);
}

#[test]
fn non_digit_is_rejected() {
    assert_eq!(parse_map(&b"111\n1x1\n111\n".to_vec()), Err(MapError::InvalidCharacter));
    assert_eq!(parse_map(&b"111\r\n101\r\n111\r\n".to_vec()), Err(MapError::InvalidCharacter));
}

#[test]
fn empty_text_is_rejected() {
    assert_eq!(parse_map(&b"\n\n".to_vec()), Err(MapError::Empty));
}

#[test]
fn ragged_map_is_rejected() {
    assert_eq!(parse_map(&b"111\n10\n111\n".to_vec()), Err(MapError::NotRectangular));
}

#[test]
fn open_border_is_rejected() {
    assert_eq!(parse_map(&b"111\n001\n111\n".to_vec()), Err(MapError::OpenBorder));
    assert_eq!(parse_map(&b"101\n101\n111\n".to_vec()), Err(MapError::OpenBorder));
}

#[test]
fn negative_tile_is_rejected() {
    assert_eq!(check_map(&vec![vec![1, 1], vec![1, -1]]), Err(MapError::NegativeTile));
}

#[test]
fn oversized_map_is_rejected() {
    let row = vec![1; 1025];
    assert_eq!(check_map(&vec![row.clone(), row]), Err(MapError::TooLarge));
}

#[test]
fn zero_width_map_is_empty() {
    assert_eq!(check_map(&vec![vec![]]), Err(MapError::Empty));
    assert_eq!(check_map(&vec![]), Err(MapError::Empty));
}
