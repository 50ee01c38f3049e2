use nacho_media::range::parse_range;

#[test]
fn accepts_explicit_ranges() {
    assert_eq!(parse_range("0-1", 1000), Some((0, 1)));
    assert_eq!(parse_range("0-999", 1000), Some((0, 999)));
    assert_eq!(parse_range("500-999", 1000), Some((500, 999)));
    assert_eq!(parse_range("7-7", 1000), Some((7, 7)));
    assert_eq!(parse_range("0-0", 1), Some((0, 0)));
    assert_eq!(parse_range("0007-0008", 1000), Some((7, 8)));
}

#[test]
fn accepts_open_ended_ranges() {
    assert_eq!(parse_range("0-", 1000), Some((0, 999)));
    assert_eq!(parse_range("1000-", 5000), Some((1000, 4999)));
    assert_eq!(parse_range("999-", 1000), Some((999, 999)));
}

#[test]
fn rejects_out_of_bounds() {
    assert_eq!(parse_range("0-1000", 1000), None);
    assert_eq!(parse_range("1000-", 1000), None);
    assert_eq!(parse_range("1000-1500", 1000), None);
    assert_eq!(parse_range("0-", 0), None);
    assert_eq!(parse_range("0-0", 0), None);
}

#[test]
fn rejects_inverted_ranges() {
    assert_eq!(parse_range("500-100", 1000), None);
    assert_eq!(parse_range("1-0", 1000), None);
}

#[test]
fn rejects_non_numeric_tokens() {
    assert_eq!(parse_range("abc-1", 1000), None);
    assert_eq!(parse_range("1-abc", 1000), None);
    assert_eq!(parse_range("1.5-2", 1000), None);
    assert_eq!(parse_range("+1-2", 1000), None);
    assert_eq!(parse_range("-5", 1000), None);
    assert_eq!(parse_range(" 1-2", 1000), None);
}

#[test]
fn rejects_wrong_dash_counts() {
    assert_eq!(parse_range("", 1000), None);
    assert_eq!(parse_range("5", 1000), None);
    assert_eq!(parse_range("0-1-2", 1000), None);
    assert_eq!(parse_range("--", 1000), None);
    assert_eq!(parse_range("-", 1000), None);
}

#[test]
fn rejects_overflowing_numbers() {
    assert_eq!(parse_range("99999999999999999999-", 1000), None);
    assert_eq!(parse_range("0-99999999999999999999", 1000), None);
}
