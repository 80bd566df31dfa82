use ptop::parse::parse_threshold;

fn parse(s: &str) -> Option<u64> {
    parse_threshold(&s.chars().collect())
}

#[test]
fn whole_numbers_scale_to_hundredths() {
    assert_eq!(parse("50"), Some(5000));
    assert_eq!(parse("0"), Some(0));
    assert_eq!(parse("007"), Some(700));
}

#[test]
fn fractions_keep_two_digits() {
    assert_eq!(parse("50.5"), Some(5050));
    assert_eq!(parse("50.55"), Some(5055));
    assert_eq!(parse("50.559"), Some(5055));
    assert_eq!(parse(".5"), Some(50));
    assert_eq!(parse("5."), Some(500));
}

#[test]
fn malformed_texts_are_rejected() {
    assert_eq!(parse(""), None);
    assert_eq!(parse("."), None);
    assert_eq!(parse("1.2.3"), None);
    assert_eq!(parse("12a"), None);
    assert_eq!(parse("-5"), None);
    assert_eq!(parse(" 5"), None);
}

#[test]
fn values_that_do_not_fit_are_rejected() {
    assert_eq!(parse("18446744073709551615"), None);
    assert_eq!(parse("184467440737095516.15"), Some(u64::MAX));
    assert_eq!(parse("99999999999999999999999999"), None);
}
