use mandelbrot::{parse_decimal, parse_pair, split_pair};

fn parse_float_pair(s: &str, separator: char) -> Option<(f64, f64)> {
    split_pair(s, separator).and_then(|(l, r)| match (l.parse::<f64>(), r.parse::<f64>()) {
        (Ok(a), Ok(b)) => Some((a, b)),
        _ => None,
    })
}

#[test]
fn test_parse_pair() {
    assert_eq!(parse_pair("", ','), None);
    assert_eq!(parse_pair("10,", ','), None);
    assert_eq!(parse_pair(",10", ','), None);
    assert_eq!(parse_pair("10,20", ','), Some((10, 20)));
    assert_eq!(parse_pair("10,20xy", ','), None);
    assert_eq!(parse_float_pair("0.5x", 'x'), None);
    assert_eq!(parse_float_pair("0.5x1.5", 'x'), Some((0.5, 1.5)));
}

#[test]
fn parse_pair_image_dimensions() {
    assert_eq!(parse_pair("1000x750", 'x'), Some((1000, 750)));
    assert_eq!(parse_pair("1000x750", ','), None);
}

#[test]
fn parse_pair_splits_at_first_separator() {
    assert_eq!(parse_pair("1,2,3", ','), None);
    assert_eq!(split_pair("1,2,3", ','), Some(("1", "2,3")));
    assert_eq!(split_pair("abc", ','), None);
    assert_eq!(split_pair(",", ','), Some(("", "")));
}

#[test]
fn split_pair_keeps_multibyte_text() {
    assert_eq!(split_pair("é×ü", '×'), Some(("é", "ü")));
}

#[test]
fn parse_decimal_accepts_plus_and_digits() {
    assert_eq!(parse_decimal("0"), Some(0));
    assert_eq!(parse_decimal("+42"), Some(42));
    assert_eq!(parse_decimal("007"), Some(7));
    assert_eq!(parse_decimal(&usize::MAX.to_string()), Some(usize::MAX));
}

#[test]
fn parse_decimal_rejects_malformed() {
    assert_eq!(parse_decimal(""), None);
    assert_eq!(parse_decimal("+"), None);
    assert_eq!(parse_decimal("-1"), None);
    assert_eq!(parse_decimal("1 "), None);
    assert_eq!(parse_decimal("12a"), None);
    assert_eq!(parse_decimal("1.5"), None);
}

#[test]
fn parse_decimal_rejects_overflow() {
    let too_big = format!("{}0", usize::MAX);
    assert_eq!(parse_decimal(&too_big), None);
    let too_big_then_junk = format!("{}0x", usize::MAX);
    assert_eq!(parse_decimal(&too_big_then_junk), None);
}
