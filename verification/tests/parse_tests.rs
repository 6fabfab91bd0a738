use tetris::parse::{parse_teto, LoadError};
use tetris::session::parse_high_score;

#[test]
fn parse_single_block() {
    let text: Vec<u8> = b"--\n####\n".to_vec();
    let rots = parse_teto(&text).unwrap();
    assert_eq!(rots.len(), 1);
    assert_eq!(rots[0], vec![(0, 0), (0, 1), (0, 2), (0, 3)]);
}

#[test]
fn parse_all_marker_replicates() {
    let text: Vec<u8> = b"--all\n##\n##\n".to_vec();
    let rots = parse_teto(&text).unwrap();
    assert_eq!(rots.len(), 4);
    let square = vec![(0, 0), (0, 1), (1, 0), (1, 1)];
    for r in &rots {
        assert_eq!(*r, square);
    }
}

#[test]
fn parse_multiple_blocks_and_spaces() {
    let text: Vec<u8> = b"--\n # \n# #\n--\n#\n#\n".to_vec();
    let rots = parse_teto(&text).unwrap();
    assert_eq!(rots.len(), 2);
    assert_eq!(rots[0], vec![(0, 1), (1, 0), (1, 2)]);
    assert_eq!(rots[1], vec![(0, 0), (1, 0)]);
}

#[test]
fn parse_skips_blank_lines_but_counts_rows() {
    // a blank line inside a block still advances the row index
    let text: Vec<u8> = b"--\n#\n\n#\n".to_vec();
    let rots = parse_teto(&text).unwrap();
    assert_eq!(rots.len(), 1);
    assert_eq!(rots[0], vec![(0, 0), (2, 0)]);
}

#[test]
fn parse_crlf_lines() {
    let text: Vec<u8> = b"--\r\n##\r\n".to_vec();
    let rots = parse_teto(&text).unwrap();
    assert_eq!(rots.len(), 1);
    assert_eq!(rots[0], vec![(0, 0), (0, 1)]);
}

#[test]
fn parse_cell_before_marker_is_malformed() {
    let text: Vec<u8> = b"#\n--\n#\n".to_vec();
    assert_eq!(parse_teto(&text).unwrap_err(), LoadError::Malformed);
}

#[test]
fn parse_spaces_before_marker_are_fine() {
    let text: Vec<u8> = b"   \n--\n#\n".to_vec();
    let rots = parse_teto(&text).unwrap();
    assert_eq!(rots.len(), 1);
    // the row index inside a block resets at the marker
    assert_eq!(rots[0], vec![(0, 0)]);
}

#[test]
fn parse_empty_text() {
    let text: Vec<u8> = Vec::new();
    let rots = parse_teto(&text).unwrap();
    assert_eq!(rots.len(), 0);
}

#[test]
fn high_score_plain_number() {
    assert_eq!(parse_high_score(&b"123".to_vec()), 123);
}

#[test]
fn high_score_leading_zeros() {
    assert_eq!(parse_high_score(&b"0000000123".to_vec()), 123);
}

#[test]
fn high_score_invalid_defaults_to_zero() {
    assert_eq!(parse_high_score(&b"".to_vec()), 0);
    assert_eq!(parse_high_score(&b"12a".to_vec()), 0);
    assert_eq!(parse_high_score(&b"-5".to_vec()), 0);
    assert_eq!(parse_high_score(&b"99999999999999".to_vec()), 0);
}

#[test]
fn high_score_max_value() {
    assert_eq!(parse_high_score(&b"2147483647".to_vec()), i32::MAX);
    assert_eq!(parse_high_score(&b"2147483648".to_vec()), 0);
}
