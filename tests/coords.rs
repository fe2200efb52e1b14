use tictactoe::coords::{are_coords_correct, parse_coords};

#[test]
fn check_coordinates() {
    let mut coords = "1        2         ".to_string();
    assert_eq!(true, are_coords_correct(&coords));

    coords = "2 3".to_string();
    assert_eq!(true, are_coords_correct(&coords));

    coords = "1 4".to_string();
    assert_eq!(false, are_coords_correct(&coords));

    coords = "1a2".to_string();
    assert_eq!(false, are_coords_correct(&coords));

    coords = "-2 2     ".to_string();
    assert_eq!(false, are_coords_correct(&coords));

    coords = "1 2 3".to_string();
    assert_eq!(false, are_coords_correct(&coords));

    coords = "how it works?".to_string();
    assert_eq!(false, are_coords_correct(&coords));
}

#[test]
fn coords_surrounding_whitespace_is_tolerated() {
    assert!(are_coords_correct("  3\t1\n"));
    assert!(are_coords_correct("\r\n2\u{3000}2 "));
    assert_eq!(parse_coords("  3\t1\n"), Some((3, 1)));
}

#[test]
fn coords_wrong_token_count() {
    assert!(!are_coords_correct(""));
    assert!(!are_coords_correct("   "));
    assert!(!are_coords_correct("2"));
    assert!(!are_coords_correct("12"));
    assert!(!are_coords_correct("1 1 1"));
    assert_eq!(parse_coords("3"), None);
}

#[test]
fn coords_out_of_range() {
    assert!(!are_coords_correct("5 5"));
    assert!(!are_coords_correct("0 1"));
    assert!(!are_coords_correct("1 0"));
    assert!(!are_coords_correct("300 1"));
    assert!(!are_coords_correct("1 99999999999999999999999"));
}

#[test]
fn coords_signed_or_non_numeric() {
    assert!(!are_coords_correct("+2 2"));
    assert!(!are_coords_correct("2 -1"));
    assert!(!are_coords_correct("one two"));
    assert!(!are_coords_correct("1,2"));
    assert!(!are_coords_correct("١ ٢"));
}

#[test]
fn coords_leading_zeros_keep_the_value() {
    assert_eq!(parse_coords("01 003"), Some((1, 3)));
    assert!(!are_coords_correct("00 1"));
}

#[test]
fn parse_coords_gives_row_then_column() {
    assert_eq!(parse_coords("2 3"), Some((2, 3)));
    assert_eq!(parse_coords("3 2"), Some((3, 2)));
    assert_eq!(parse_coords("1 4"), None);
}
