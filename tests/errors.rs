use scriptlets::errors::{double_parse_nest, parse_nest, trim_double_parse_nest, ErrKind};

fn is_parse_error(r: &Result<u64, scriptlets::errors::ErrWrapper>) -> bool {
    matches!(r, Err(e) if matches!(e.source, ErrKind::ParseInt { .. }))
}

#[test]
fn parses_plain_numbers() {
    assert_eq!(parse_nest("42".to_string()).ok(), Some(42));
    assert_eq!(parse_nest("+7".to_string()).ok(), Some(7));
}

#[test]
fn rejects_non_numbers() {
    assert!(is_parse_error(&parse_nest("".to_string())));
    assert!(is_parse_error(&parse_nest("-1".to_string())));
    assert!(is_parse_error(&parse_nest("18446744073709551616".to_string())));
}

#[test]
fn doubles_before_parsing() {
    assert_eq!(double_parse_nest("12".to_string()).ok(), Some(1212));
    assert!(is_parse_error(&double_parse_nest("+1".to_string())));
}

#[test]
fn trims_then_doubles() {
    assert_eq!(trim_double_parse_nest("1").ok(), Some(11));
    assert_eq!(trim_double_parse_nest(" 22\t").ok(), Some(2222));
    assert_eq!(trim_double_parse_nest("55555").ok(), Some(5555555555));
}

#[test]
fn trimmed_words_still_fail() {
    assert!(is_parse_error(&trim_double_parse_nest("sixsix")));
    assert!(is_parse_error(&trim_double_parse_nest("   ")));
    assert!(is_parse_error(&trim_double_parse_nest("9999999999")));
}
