use dk::rank::{is_integer, is_valid_rank, parse_index};

#[test]
fn test_is_integer() {
    assert!(is_integer("123"));
    assert!(is_integer("-123"));
    assert!(is_integer("+123"));
    assert!(!is_integer("123.45"));
    assert!(!is_integer("abc"));
    assert!(!is_integer(""));
}

#[test]
fn test_is_valid_rank() {
    assert!(is_valid_rank("1", 5));
    assert!(is_valid_rank("5", 5));
    assert!(!is_valid_rank("0", 5));
    assert!(!is_valid_rank("6", 5));
    assert!(!is_valid_rank("-1", 5));
}

#[test]
fn test_rank_one_needs_a_row() {
    assert!(!is_valid_rank("1", 0));
    assert!(is_valid_rank("1", 1));
}

#[test]
fn test_rank_with_plus_sign() {
    assert!(is_valid_rank("+3", 5));
    assert!(!is_valid_rank("+6", 5));
    assert!(!is_valid_rank("+", 5));
}

#[test]
fn test_rank_overflow_is_not_a_rank() {
    assert!(!is_valid_rank("99999999999999999999999999", 5));
    assert_eq!(parse_index("99999999999999999999999999"), None);
}

#[test]
fn test_parse_index_values() {
    assert_eq!(parse_index("0"), Some(0));
    assert_eq!(parse_index("42"), Some(42));
    assert_eq!(parse_index("+7"), Some(7));
    assert_eq!(parse_index("-7"), None);
    assert_eq!(parse_index("4x"), None);
    assert_eq!(parse_index(""), None);
}
